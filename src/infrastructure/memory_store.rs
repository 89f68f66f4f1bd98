use vstd::prelude::*;
use vstd::string::*;

use crate::application::ports::{
    filter_matches, record_passes, record_views, row_views, AppError, EventQuery,
    EventRecord, EventRecordQuery, EventStore, FilterView, RecordView, TargetRepository,
    event_views,
};
use crate::domain::event::{opt_text, Event, EventType, EventView};
use crate::domain::types::text_eq;
use crate::domain::watch_target::{TargetView, WatchTarget};

verus! {

/// Largest number of rows a newest-first query returns.
pub const MAX_QUERY_LIMIT: u32 = 500;

/// The mathematical state of an event store. The row at index `i` of
/// `log` has rowid `i + 1`.
pub struct StoreState {
    pub log: Seq<RecordView>,
    pub seen: Set<Seq<char>>,
    pub cooldowns: Map<Seq<char>, i64>,
}

impl StoreState {
    /// A row with this event id is stored.
    pub open spec fn has_id(self, id: Seq<char>) -> bool {
        exists|i: int| 0 <= i < self.log.len() && #[trigger] self.log[i].event.event_id == id
    }

    /// No two rows share an event id.
    pub open spec fn ids_unique(self) -> bool {
        forall|i: int, j: int|
            0 <= i < self.log.len() && 0 <= j < self.log.len()
                && #[trigger] self.log[i].event.event_id == #[trigger] self.log[j].event.event_id
                ==> i == j
    }

    /// Insert-if-absent by event id.
    pub open spec fn append(self, r: RecordView) -> StoreState {
        if self.has_id(r.event.event_id) {
            self
        } else {
            StoreState { log: self.log.push(r), ..self }
        }
    }

    pub open spec fn mark_seen(self, id: Seq<char>) -> StoreState {
        StoreState { seen: self.seen.insert(id), ..self }
    }

    pub open spec fn set_notified(self, key: Seq<char>, epoch: i64) -> StoreState {
        StoreState { cooldowns: self.cooldowns.insert(key, epoch), ..self }
    }

    pub open spec fn last_notified(self, key: Seq<char>) -> Option<i64> {
        if self.cooldowns.contains_key(key) {
            Some(self.cooldowns[key])
        } else {
            None
        }
    }
}

/// The number of rows a newest-first query asks for: its limit, at most 500.
pub open spec fn query_cap(limit: u32) -> nat {
    if limit < MAX_QUERY_LIMIT { limit as nat } else { MAX_QUERY_LIMIT as nat }
}

/// `a` (log index `ia`) is ordered before `b` (log index `ib`) newest-first:
/// a later detection epoch, or the same epoch and a later rowid.
pub open spec fn newer(a: RecordView, ia: int, b: RecordView, ib: int) -> bool {
    a.detected_at_epoch > b.detected_at_epoch || (a.detected_at_epoch == b.detected_at_epoch
        && ia > ib)
}

/// Row `j` passes `f` and is older than row `bound`, if one is given.
pub open spec fn is_candidate(log: Seq<RecordView>, f: FilterView, bound: Option<usize>, j: int) -> bool {
    &&& filter_matches(f, log[j])
    &&& (bound matches Some(b) ==> newer(log[b as int], b as int, log[j], j))
}

/// `idx` lists, newest first, the `limit` newest rows of `log` that pass `f`
/// (all of them when fewer pass).
pub open spec fn newest_first(log: Seq<RecordView>, f: FilterView, limit: int, idx: Seq<usize>) -> bool {
    &&& idx.len() <= limit
    &&& forall|k: int|
        0 <= k < idx.len() ==> #[trigger] idx[k] < log.len() && filter_matches(f, log[idx[k] as int])
    &&& forall|a: int, b: int|
        0 <= a < b < idx.len() ==> newer(
            log[#[trigger] idx[a] as int],
            idx[a] as int,
            log[#[trigger] idx[b] as int],
            idx[b] as int,
        )
    &&& forall|j: int|
        0 <= j < log.len() && filter_matches(f, #[trigger] log[j]) && (forall|k: int|
            0 <= k < idx.len() ==> idx[k] != j) ==> idx.len() == limit && (idx.len() > 0 ==> newer(
            log[idx.last() as int],
            idx.last() as int,
            log[j],
            j,
        ))
}

/// The rows among the first `n` of `log` that pass `f` and have a rowid
/// above `after`, oldest first, each with its rowid.
pub open spec fn cursor_prefix(log: Seq<RecordView>, f: FilterView, after: Option<i64>, n: int) -> Seq<(int, RecordView)>
    decreases n,
{
    if n <= 0 || n > log.len() {
        Seq::empty()
    } else {
        let prev = cursor_prefix(log, f, after, n - 1);
        if filter_matches(f, log[n - 1]) && (after matches Some(a) ==> n > a) {
            prev.push((n, log[n - 1]))
        } else {
            prev
        }
    }
}

/// All rows of `log` that pass `f` with a rowid above `after`, oldest first.
pub open spec fn cursor_rows(log: Seq<RecordView>, f: FilterView, after: Option<i64>) -> Seq<(int, RecordView)> {
    cursor_prefix(log, f, after, log.len() as int)
}

/// The first `n` items of `s`, or all of them.
pub open spec fn take_upto<T>(s: Seq<T>, n: int) -> Seq<T> {
    if s.len() <= n {
        s
    } else {
        s.take(n)
    }
}

/// The rows of the log, newest rowid first.
pub open spec fn latest_events(log: Seq<RecordView>, limit: int) -> Seq<EventView> {
    Seq::new(
        if log.len() <= limit { log.len() } else { limit as nat },
        |i: int| log[log.len() - 1 - i].event,
    )
}

/// A cursor prefix is a prefix of every longer one.
pub proof fn lemma_cursor_prefix_grows(log: Seq<RecordView>, f: FilterView, after: Option<i64>, n: int, m: int)
    requires
        0 <= n <= m <= log.len(),
    ensures
        cursor_prefix(log, f, after, n) == cursor_prefix(log, f, after, m).take(
            cursor_prefix(log, f, after, n).len() as int,
        ),
        cursor_prefix(log, f, after, n).len() <= cursor_prefix(log, f, after, m).len(),
    decreases m - n,
{
    if n < m {
        lemma_cursor_prefix_grows(log, f, after, n, m - 1);
        let a = cursor_prefix(log, f, after, n);
        let b = cursor_prefix(log, f, after, m - 1);
        let c = cursor_prefix(log, f, after, m);
        assert(c.take(b.len() as int) =~= b);
        assert(c.take(a.len() as int) =~= b.take(a.len() as int));
    } else {
        assert(cursor_prefix(log, f, after, n).take(cursor_prefix(log, f, after, n).len() as int)
            =~= cursor_prefix(log, f, after, n));
    }
}

/// Every entry of a cursor prefix has a rowid in `1..=n`, and rowids increase.
pub proof fn lemma_cursor_prefix_rowids(log: Seq<RecordView>, f: FilterView, after: Option<i64>, n: int)
    requires
        0 <= n <= log.len(),
    ensures
        forall|k: int|
            0 <= k < cursor_prefix(log, f, after, n).len() ==> {
                let (r, v) = #[trigger] cursor_prefix(log, f, after, n)[k];
                &&& 1 <= r <= n
                &&& v == log[r - 1]
                &&& filter_matches(f, v)
                &&& (after matches Some(a) ==> r > a)
            },
        forall|k: int, l: int|
            0 <= k < l < cursor_prefix(log, f, after, n).len() ==> (#[trigger] cursor_prefix(
                log,
                f,
                after,
                n,
            )[k]).0 < (#[trigger] cursor_prefix(log, f, after, n)[l]).0,
    decreases n,
{
    if n > 0 {
        lemma_cursor_prefix_rowids(log, f, after, n - 1);
    }
}

/// The state after appending `recs` one by one.
pub open spec fn append_all(s: StoreState, recs: Seq<RecordView>) -> StoreState
    decreases recs.len(),
{
    if recs.len() == 0 {
        s
    } else {
        append_all(s, recs.drop_last()).append(recs.last())
    }
}

/// Appending `n` records with distinct new ids gives them the rowids
/// `len + 1, ..., len + n` in insertion order (before the `k`-th append the
/// log holds `len + k` rows and not its id, so it gets rowid `len + k + 1`),
/// and appending a stored id never advances the sequence.
pub proof fn lemma_monotonic_sequence(s: StoreState, recs: Seq<RecordView>, dup: RecordView)
    requires
        forall|i: int, j: int|
            0 <= i < j < recs.len() ==> #[trigger] recs[i].event.event_id != #[trigger] recs[j].event.event_id,
        forall|i: int| 0 <= i < recs.len() ==> !s.has_id(#[trigger] recs[i].event.event_id),
    ensures
        append_all(s, recs).log == s.log + recs,
        forall|k: int|
            0 <= k < recs.len() ==> {
                &&& #[trigger] append_all(s, recs.take(k)).log.len() == s.log.len() + k
                &&& !append_all(s, recs.take(k)).has_id(recs[k].event.event_id)
            },
        s.has_id(dup.event.event_id) ==> s.append(dup) == s,
    decreases recs.len(),
{
    if recs.len() > 0 {
        let init = recs.drop_last();
        lemma_monotonic_sequence(s, init, dup);
        let prev = append_all(s, init);
        let last = recs.last();
        assert(!prev.has_id(last.event.event_id)) by {
            if prev.has_id(last.event.event_id) {
                let i = choose|i: int| 0 <= i < prev.log.len() && #[trigger] prev.log[i].event.event_id == last.event.event_id;
                if i < s.log.len() {
                    assert(prev.log[i] == s.log[i]);
                } else {
                    assert(prev.log[i] == init[i - s.log.len()]);
                    assert(recs[i - s.log.len()] == init[i - s.log.len()]);
                }
            }
        }
        assert(append_all(s, recs).log =~= s.log + recs);
        assert forall|k: int| 0 <= k < recs.len() implies {
            &&& #[trigger] append_all(s, recs.take(k)).log.len() == s.log.len() + k
            &&& !append_all(s, recs.take(k)).has_id(recs[k].event.event_id)
        } by {
            if k < init.len() {
                assert(recs.take(k) =~= init.take(k));
                assert(recs[k] == init[k]);
            } else {
                assert(recs.take(k) =~= init);
            }
        }
    }
}

struct CooldownEntry {
    scope_key: String,
    last_notified_epoch: i64,
}

/// An event store held in memory: the append-only log, the idempotency
/// marks and the cooldown table.
pub struct InMemoryEventStore {
    rows: Vec<EventRecord>,
    seen: Vec<String>,
    cooldowns: Vec<CooldownEntry>,
}

impl View for InMemoryEventStore {
    type V = StoreState;

    closed spec fn view(&self) -> StoreState {
        StoreState {
            log: record_views(self.rows@),
            seen: Set::new(|k: Seq<char>| exists|i: int| 0 <= i < self.seen@.len() && #[trigger] self.seen@[i]@ == k),
            cooldowns: Map::new(
                |k: Seq<char>| exists|i: int| 0 <= i < self.cooldowns@.len() && #[trigger] self.cooldowns@[i].scope_key@ == k,
                |k: Seq<char>|
                    self.cooldowns@[choose|i: int| 0 <= i < self.cooldowns@.len() && #[trigger] self.cooldowns@[i].scope_key@ == k].last_notified_epoch,
            ),
        }
    }
}

impl InMemoryEventStore {
    /// The store's internal consistency: event ids and cooldown keys are
    /// unique, and every rowid fits an `i64`.
    #[verifier::type_invariant]
    spec fn inv(self) -> bool {
        &&& self@.ids_unique()
        &&& self.rows@.len() <= i64::MAX
        &&& forall|i: int, j: int|
            0 <= i < self.cooldowns@.len() && 0 <= j < self.cooldowns@.len()
                && #[trigger] self.cooldowns@[i].scope_key@ == #[trigger] self.cooldowns@[j].scope_key@
                ==> i == j
    }

    pub fn new() -> (r: InMemoryEventStore)
        ensures
            r@.log == Seq::<RecordView>::empty(),
            r@.seen == Set::<Seq<char>>::empty(),
            r@.cooldowns == Map::<Seq<char>, i64>::empty(),
    {
        let r = InMemoryEventStore { rows: Vec::new(), seen: Vec::new(), cooldowns: Vec::new() };
        assert(r@.seen =~= Set::<Seq<char>>::empty());
        assert(r@.cooldowns =~= Map::<Seq<char>, i64>::empty());
        assert(r@.log =~= Seq::<RecordView>::empty());
        r
    }

    /// Whether `event_id` has been marked seen.
    pub fn has_seen(&self, event_id: &str) -> (r: bool)
        ensures
            r == self@.seen.contains(event_id@),
    {
        let mut i: usize = 0;
        while i < self.seen.len()
            invariant
                i <= self.seen@.len(),
                forall|j: int| 0 <= j < i ==> self.seen@[j]@ != event_id@,
            decreases self.seen.len() - i,
        {
            if text_eq(self.seen[i].as_str(), event_id) {
                assert(self.seen@[i as int]@ == event_id@);
                return true;
            }
            i = i + 1;
        }
        false
    }

    /// Marks `event_id` seen; marking twice is harmless.
    pub fn mark_seen(&mut self, event_id: &str)
        ensures
            final(self)@ == old(self)@.mark_seen(event_id@),
    {
        proof { use_type_invariant(&*self); }
        if !self.has_seen(event_id) {
            let mut seen: Vec<String> = Vec::new();
            std::mem::swap(&mut seen, &mut self.seen);
            seen.push(String::from_str(event_id));
            self.seen = seen;
        }
        assert(self@.seen =~= old(self)@.seen.insert(event_id@)) by {
            assert forall|k: Seq<char>| #[trigger] self@.seen.contains(k) <==> old(self)@.seen.insert(event_id@).contains(k) by {
                if self@.seen.contains(k) && k != event_id@ {
                    let i = choose|i: int| 0 <= i < self.seen@.len() && #[trigger] self.seen@[i]@ == k;
                    assert(old(self).seen@[i]@ == k);
                }
                if old(self)@.seen.contains(k) {
                    let i = choose|i: int| 0 <= i < old(self).seen@.len() && #[trigger] old(self).seen@[i]@ == k;
                    assert(self.seen@[i]@ == k);
                }
                if k == event_id@ && !old(self)@.seen.contains(k) {
                    assert(self.seen@[self.seen@.len() - 1]@ == k);
                }
            }
        }
        assert(self@.log == old(self)@.log);
        assert(self@.cooldowns == old(self)@.cooldowns);
    }

    /// Index of the row with this event id, if any.
    fn find_id(&self, event_id: &String) -> (r: Option<usize>)
        ensures
            r matches Some(i) ==> i < self.rows@.len() && self@.log[i as int].event.event_id == event_id@,
            r is None ==> !self@.has_id(event_id@),
    {
        let mut i: usize = 0;
        while i < self.rows.len()
            invariant
                i <= self.rows@.len(),
                forall|j: int| 0 <= j < i ==> self@.log[j].event.event_id != event_id@,
            decreases self.rows.len() - i,
        {
            if self.rows[i].event.event_id == *event_id {
                return Some(i);
            }
            i = i + 1;
        }
        None
    }

    /// Appends `record` unless a row with its event id exists. A new row gets
    /// the next rowid (`Ok(Some(rowid))`); a duplicate changes nothing
    /// (`Ok(None)`). Fails only when the rowid sequence is exhausted.
    pub fn append_record(&mut self, record: &EventRecord) -> (r: Result<Option<i64>, AppError>)
        ensures
            old(self)@.has_id(record.event.event_id@) ==> r == Ok::<Option<i64>, AppError>(None) && final(self)@ == old(self)@,
            !old(self)@.has_id(record.event.event_id@) && old(self)@.log.len() < i64::MAX ==> {
                &&& r == Ok::<Option<i64>, AppError>(Some((old(self)@.log.len() + 1) as i64))
                &&& final(self)@ == old(self)@.append(record@)
            },
            !old(self)@.has_id(record.event.event_id@) && old(self)@.log.len() >= i64::MAX ==> (r matches Err(AppError::Storage(_))) && final(self)@ == old(self)@,
    {
        proof { use_type_invariant(&*self); }
        match self.find_id(&record.event.event_id) {
            Some(_) => Ok(None),
            None => {
                if self.rows.len() as u64 >= i64::MAX as u64 {
                    return Err(AppError::Storage(String::from_str("rowid sequence exhausted")));
                }
                let rowid = (self.rows.len() as u64 + 1) as i64;
                let mut rows: Vec<EventRecord> = Vec::new();
                std::mem::swap(&mut rows, &mut self.rows);
                rows.push(record.duplicate());
                proof {
                    let new_log = record_views(rows@);
                    assert(new_log =~= old(self)@.log.push(record@));
                    assert forall|i: int, j: int|
                        0 <= i < new_log.len() && 0 <= j < new_log.len()
                            && #[trigger] new_log[i].event.event_id == #[trigger] new_log[j].event.event_id
                            implies i == j by {
                        if i < new_log.len() - 1 && j == new_log.len() - 1 {
                            assert(old(self)@.log[i].event.event_id == record@.event.event_id);
                        }
                        if j < new_log.len() - 1 && i == new_log.len() - 1 {
                            assert(old(self)@.log[j].event.event_id == record@.event.event_id);
                        }
                    }
                }
                self.rows = rows;
                assert(self@.log =~= old(self)@.log.push(record@));
                assert(self@.seen =~= old(self)@.seen);
                assert(self@.cooldowns =~= old(self)@.cooldowns);
                Ok(Some(rowid))
            },
        }
    }

    /// The last-notified epoch of a cooldown key.
    pub fn get_last_notified(&self, scope_key: &str) -> (r: Option<i64>)
        ensures
            r == self@.last_notified(scope_key@),
    {
        proof { use_type_invariant(&*self); }
        let mut i: usize = 0;
        while i < self.cooldowns.len()
            invariant
                self.inv(),
                i <= self.cooldowns@.len(),
                forall|j: int| 0 <= j < i ==> self.cooldowns@[j].scope_key@ != scope_key@,
            decreases self.cooldowns.len() - i,
        {
            if text_eq(self.cooldowns[i].scope_key.as_str(), scope_key) {
                proof {
                    assert(self.cooldowns@[i as int].scope_key@ == scope_key@);
                    assert(self@.cooldowns.contains_key(scope_key@));
                    let c = choose|c: int| 0 <= c < self.cooldowns@.len() && #[trigger] self.cooldowns@[c].scope_key@ == scope_key@;
                    assert(self.cooldowns@[c].scope_key@ == self.cooldowns@[i as int].scope_key@);
                    assert(c == i);
                }
                return Some(self.cooldowns[i].last_notified_epoch);
            }
            i = i + 1;
        }
        None
    }

    /// Sets the last-notified epoch of a cooldown key, replacing any earlier one.
    pub fn set_last_notified(&mut self, scope_key: &str, epoch_seconds: i64)
        ensures
            final(self)@ == old(self)@.set_notified(scope_key@, epoch_seconds),
    {
        proof { use_type_invariant(&*self); }
        let mut i: usize = 0;
        let mut found: Option<usize> = None;
        while i < self.cooldowns.len() && found.is_none()
            invariant
                i <= self.cooldowns@.len(),
                found is None ==> forall|j: int| 0 <= j < i ==> self.cooldowns@[j].scope_key@ != scope_key@,
                found matches Some(k) ==> k < self.cooldowns@.len() && self.cooldowns@[k as int].scope_key@ == scope_key@,
            decreases self.cooldowns.len() - i + (if found is None { 1int } else { 0int }),
        {
            if text_eq(self.cooldowns[i].scope_key.as_str(), scope_key) {
                found = Some(i);
            } else {
                i = i + 1;
            }
        }
        let ghost old_cd = self.cooldowns@;
        let mut cooldowns: Vec<CooldownEntry> = Vec::new();
        std::mem::swap(&mut cooldowns, &mut self.cooldowns);
        match found {
            Some(k) => {
                let entry = CooldownEntry { scope_key: String::from_str(scope_key), last_notified_epoch: epoch_seconds };
                cooldowns.set(k, entry);
                assert forall|a: int| 0 <= a < cooldowns@.len() implies #[trigger] cooldowns@[a].scope_key@ == old_cd[a].scope_key@ by {}
            },
            None => {
                let entry = CooldownEntry { scope_key: String::from_str(scope_key), last_notified_epoch: epoch_seconds };
                cooldowns.push(entry);
            },
        }
        let ghost new_cd = cooldowns@;
        assert forall|a: int, b: int|
            0 <= a < new_cd.len() && 0 <= b < new_cd.len()
                && #[trigger] new_cd[a].scope_key@ == #[trigger] new_cd[b].scope_key@
                implies a == b by {
            if a < old_cd.len() && b < old_cd.len() {
                if found is Some {
                    assert(new_cd[a].scope_key@ == old_cd[a].scope_key@);
                    assert(new_cd[b].scope_key@ == old_cd[b].scope_key@);
                } else {
                    assert(new_cd[a] == old_cd[a]);
                    assert(new_cd[b] == old_cd[b]);
                }
            } else if a < old_cd.len() {
                assert(new_cd[a] == old_cd[a]);
            } else if b < old_cd.len() {
                assert(new_cd[b] == old_cd[b]);
            }
        }
        self.cooldowns = cooldowns;
        assert(self@.cooldowns =~= old(self)@.cooldowns.insert(scope_key@, epoch_seconds)) by {
            assert forall|key: Seq<char>| #[trigger] self@.cooldowns.contains_key(key) <==> old(self)@.cooldowns.insert(scope_key@, epoch_seconds).contains_key(key) by {
                if self@.cooldowns.contains_key(key) && key != scope_key@ {
                    let c = choose|c: int| 0 <= c < new_cd.len() && #[trigger] new_cd[c].scope_key@ == key;
                    assert(old_cd[c].scope_key@ == key);
                }
                if old(self)@.cooldowns.contains_key(key) {
                    let c = choose|c: int| 0 <= c < old_cd.len() && #[trigger] old_cd[c].scope_key@ == key;
                    if found is Some {
                        assert(new_cd[c].scope_key@ == key);
                    } else {
                        assert(new_cd[c] == old_cd[c]);
                    }
                }
                if key == scope_key@ {
                    match found {
                        Some(k) => { assert(new_cd[k as int].scope_key@ == key); },
                        None => { assert(new_cd[old_cd.len() as int].scope_key@ == key); },
                    }
                }
            }
            assert forall|key: Seq<char>| #[trigger] self@.cooldowns.contains_key(key) implies self@.cooldowns[key] == old(self)@.cooldowns.insert(scope_key@, epoch_seconds)[key] by {
                let c = choose|c: int| 0 <= c < new_cd.len() && #[trigger] new_cd[c].scope_key@ == key;
                if key == scope_key@ {
                    match found {
                        Some(k) => { assert(new_cd[k as int].scope_key@ == key); assert(c == k); },
                        None => {
                            assert(new_cd[old_cd.len() as int].scope_key@ == key);
                            assert(c == old_cd.len());
                        },
                    }
                } else {
                    assert(old_cd[c].scope_key@ == key);
                    let d = choose|d: int| 0 <= d < old_cd.len() && #[trigger] old_cd[d].scope_key@ == key;
                    assert(new_cd[d].scope_key@ == key);
                    assert(c == d);
                    if found is Some {
                        assert(new_cd[c].last_notified_epoch == old_cd[c].last_notified_epoch);
                    } else {
                        assert(new_cd[c] == old_cd[c]);
                    }
                }
            }
        }
        assert(self@.seen =~= old(self)@.seen);
        assert(self@.log == old(self)@.log);
    }



    /// The events of the newest `limit` rows, newest rowid first.
    pub fn list_events(&self, limit: u32) -> (r: Vec<Event>)
        ensures
            event_views(r@) == latest_events(self@.log, limit as int),
    {
        let mut out: Vec<Event> = Vec::new();
        let n = self.rows.len();
        let mut i: usize = 0;
        while i < n && (i as u64) < (limit as u64)
            invariant
                n == self.rows@.len(),
                i <= n,
                i <= limit,
                out@.len() == i,
                forall|k: int| 0 <= k < i ==> #[trigger] out@[k]@ == self@.log[n - 1 - k].event,
            decreases n - i,
        {
            out.push(self.rows[n - 1 - i].event.duplicate());
            i = i + 1;
        }
        assert(event_views(out@) =~= latest_events(self@.log, limit as int));
        out
    }

    /// The index of the newest row that passes the filter and is older than
    /// `bound` (any passing row when `bound` is `None`).
    fn newest_below(
        &self,
        since_epoch: Option<i64>,
        label: &Option<String>,
        event_type: Option<EventType>,
        subject: &Option<String>,
        bound: Option<usize>,
    ) -> (r: Option<usize>)
        requires
            bound matches Some(b) ==> b < self.rows@.len(),
        ensures
            ({
                let f = FilterView {
                    since_epoch,
                    label: opt_text(*label),
                    event_type,
                    subject: opt_text(*subject),
                };
                let log = self@.log;
                &&& r matches Some(m) ==> m < log.len() && is_candidate(log, f, bound, m as int) && forall|j: int|
                    0 <= j < log.len() && #[trigger] is_candidate(log, f, bound, j) && j != m ==> newer(log[m as int], m as int, log[j], j)
                &&& r is None ==> forall|j: int| 0 <= j < log.len() ==> !#[trigger] is_candidate(log, f, bound, j)
            }),
    {
        let ghost f = FilterView {
            since_epoch,
            label: opt_text(*label),
            event_type,
            subject: opt_text(*subject),
        };
        let ghost log = self@.log;
        let mut best: Option<usize> = None;
        let mut j: usize = 0;
        while j < self.rows.len()
            invariant
                log == self@.log,
                j <= log.len(),
                bound matches Some(b) ==> b < log.len(),
                f == (FilterView { since_epoch, label: opt_text(*label), event_type, subject: opt_text(*subject) }),
                best matches Some(m) ==> m < j && is_candidate(log, f, bound, m as int)
                    && forall|x: int| 0 <= x < j && x != m && #[trigger] is_candidate(log, f, bound, x)
                        ==> newer(log[m as int], m as int, log[x], x),
                best is None ==> forall|x: int| 0 <= x < j ==> !#[trigger] is_candidate(log, f, bound, x),
            decreases log.len() - j,
        {
            let row = &self.rows[j];
            if record_passes(since_epoch, label, event_type, subject, row) {
                let below = match bound {
                    Some(b) => {
                        let top = &self.rows[b];
                        top.detected_at_epoch > row.detected_at_epoch
                            || (top.detected_at_epoch == row.detected_at_epoch && b > j)
                    },
                    None => true,
                };
                if below {
                    let better = match best {
                        Some(m) => {
                            let cur = &self.rows[m];
                            row.detected_at_epoch > cur.detected_at_epoch
                                || (row.detected_at_epoch == cur.detected_at_epoch && j > m)
                        },
                        None => true,
                    };
                    if better {
                        best = Some(j);
                    }
                }
            }
            j = j + 1;
        }
        best
    }

    /// The indices of the rows a newest-first query returns.
    fn select_newest(&self, query: &EventQuery) -> (idx: Vec<usize>)
        ensures
            newest_first(self@.log, query.filter(), query_cap(query.limit) as int, idx@),
    {
        let cap: usize = if query.limit < MAX_QUERY_LIMIT { query.limit as usize } else { MAX_QUERY_LIMIT as usize };
        let ghost f = query.filter();
        let ghost log = self@.log;
        let mut idx: Vec<usize> = Vec::new();
        let mut done = false;
        while idx.len() < cap && !done
            invariant
                log == self@.log,
                f == query.filter(),
                cap == query_cap(query.limit),
                idx@.len() <= cap,
                forall|k: int| 0 <= k < idx@.len() ==> #[trigger] idx@[k] < log.len() && filter_matches(f, log[idx@[k] as int]),
                forall|a: int, b: int| 0 <= a < b < idx@.len() ==> newer(
                    log[#[trigger] idx@[a] as int], idx@[a] as int, log[#[trigger] idx@[b] as int], idx@[b] as int),
                idx@.len() > 0 ==> forall|j: int| 0 <= j < log.len() && filter_matches(f, #[trigger] log[j])
                    && (forall|k: int| 0 <= k < idx@.len() ==> idx@[k] != j)
                    ==> newer(log[idx@.last() as int], idx@.last() as int, log[j], j),
                done ==> forall|j: int| 0 <= j < log.len() && filter_matches(f, #[trigger] log[j])
                    ==> exists|k: int| 0 <= k < idx@.len() && idx@[k] == j,
            decreases cap - idx@.len() + (if done { 0int } else { 1int }),
        {
            let bound = if idx.len() == 0 { None } else { Some(idx[idx.len() - 1]) };
            match self.newest_below(query.since_epoch, &query.label, query.event_type, &query.subject, bound) {
                Some(m) => {
                    let ghost old_idx = idx@;
                    proof {
                        assert forall|k: int| 0 <= k < idx@.len() implies idx@[k] != m by {
                            if k < idx@.len() - 1 {
                                assert(newer(log[idx@[k] as int], idx@[k] as int, log[idx@.last() as int], idx@.last() as int));
                            }
                        }
                    }
                    idx.push(m);
                    proof {
                        assert forall|j: int| 0 <= j < log.len() && filter_matches(f, #[trigger] log[j])
                            && (forall|k: int| 0 <= k < idx@.len() ==> idx@[k] != j)
                            implies newer(log[idx@.last() as int], idx@.last() as int, log[j], j) by {
                            assert forall|k: int| 0 <= k < old_idx.len() implies old_idx[k] != j by {
                                assert(idx@[k] == old_idx[k]);
                            }
                            assert(idx@[old_idx.len() as int] == m);
                            assert(is_candidate(log, f, bound, j));
                        }
                        assert forall|a: int, b: int| 0 <= a < b < idx@.len() implies newer(
                            log[#[trigger] idx@[a] as int], idx@[a] as int, log[#[trigger] idx@[b] as int], idx@[b] as int) by {
                            if b == old_idx.len() && a < old_idx.len() - 1 {
                                assert(newer(log[old_idx[a] as int], old_idx[a] as int, log[old_idx.last() as int], old_idx.last() as int));
                            }
                        }
                    }
                },
                None => {
                    proof {
                        assert forall|j: int| 0 <= j < log.len() && filter_matches(f, #[trigger] log[j])
                            implies exists|k: int| 0 <= k < idx@.len() && idx@[k] == j by {
                            if forall|k: int| 0 <= k < idx@.len() ==> idx@[k] != j {
                                assert(is_candidate(log, f, bound, j));
                            }
                        }
                    }
                    done = true;
                },
            }
        }
        proof {
            assert forall|j: int| 0 <= j < log.len() && filter_matches(f, #[trigger] log[j]) && (forall|k: int|
                0 <= k < idx@.len() ==> idx@[k] != j) implies idx@.len() == cap && (idx@.len() > 0 ==> newer(
                log[idx@.last() as int], idx@.last() as int, log[j], j)) by {
                if done {
                    let k = choose|k: int| 0 <= k < idx@.len() && idx@[k] == j;
                    assert(idx@[k] == j);
                }
            }
        }
        idx
    }

    /// Records passing every given filter, newest first by detection epoch
    /// and then rowid, at most `min(limit, 500)` of them.
    pub fn list_event_records_filtered(&self, query: EventQuery) -> (r: Vec<EventRecord>)
        ensures
            exists|idx: Seq<usize>|
                newest_first(self@.log, query.filter(), query_cap(query.limit) as int, idx)
                    && record_views(r@) == idx.map_values(|i: usize| self@.log[i as int]),
            forall|k: int| 0 <= k < r@.len() ==> filter_matches(query.filter(), #[trigger] r@[k]@),
            r@.len() <= query_cap(query.limit),
    {
        let idx = self.select_newest(&query);
        let mut out: Vec<EventRecord> = Vec::new();
        let mut k: usize = 0;
        while k < idx.len()
            invariant
                k <= idx@.len(),
                forall|a: int| 0 <= a < idx@.len() ==> #[trigger] idx@[a] < self.rows@.len(),
                out@.len() == k,
                forall|a: int| 0 <= a < k ==> #[trigger] out@[a]@ == self@.log[idx@[a] as int],
            decreases idx@.len() - k,
        {
            out.push(self.rows[idx[k]].duplicate());
            k = k + 1;
        }
        assert(record_views(out@) =~= idx@.map_values(|i: usize| self@.log[i as int]));
        assert forall|k: int| 0 <= k < out@.len() implies filter_matches(query.filter(), #[trigger] out@[k]@) by {
            assert(idx@[k] < self.rows@.len());
        }
        out
    }

    /// Events passing every given filter, in the order of
    /// [`Self::list_event_records_filtered`].
    pub fn list_events_filtered(&self, query: EventQuery) -> (r: Vec<Event>)
        ensures
            exists|idx: Seq<usize>|
                newest_first(self@.log, query.filter(), query_cap(query.limit) as int, idx)
                    && event_views(r@) == idx.map_values(|i: usize| self@.log[i as int].event),
    {
        let records = self.list_event_records_filtered(query);
        let ghost idx = choose|idx: Seq<usize>|
            newest_first(self@.log, query.filter(), query_cap(query.limit) as int, idx)
                && record_views(records@) == idx.map_values(|i: usize| self@.log[i as int]);
        let mut out: Vec<Event> = Vec::new();
        let mut k: usize = 0;
        while k < records.len()
            invariant
                k <= records@.len(),
                out@.len() == k,
                forall|a: int| 0 <= a < k ==> #[trigger] out@[a]@ == records@[a]@.event,
            decreases records@.len() - k,
        {
            out.push(records[k].event.duplicate());
            k = k + 1;
        }
        proof {
            assert(record_views(records@).len() == idx.len());
            assert forall|a: int| 0 <= a < idx.len() implies #[trigger] event_views(out@)[a] == idx.map_values(|i: usize| self@.log[i as int].event)[a] by {
                assert(record_views(records@)[a] == records@[a]@);
            }
            assert(event_views(out@) =~= idx.map_values(|i: usize| self@.log[i as int].event));
        }
        out
    }

    /// Rows passing every given filter with a rowid above `after_rowid`,
    /// oldest first, at most `limit` of them, each with its rowid.
    pub fn list_event_records_cursor(&self, query: EventRecordQuery) -> (r: Vec<(i64, EventRecord)>)
        ensures
            row_views(r@) == take_upto(cursor_rows(self@.log, query.filter(), query.after_rowid), query.limit as int),
            forall|k: int|
                0 <= k < r@.len() ==> filter_matches(query.filter(), (#[trigger] r@[k]).1@) && (query.after_rowid matches Some(a)
                    ==> r@[k].0 > a),
            forall|k: int, l: int| 0 <= k < l < r@.len() ==> (#[trigger] r@[k]).0 < (#[trigger] r@[l]).0,
    {
        proof { use_type_invariant(&*self); }
        let ghost f = query.filter();
        let ghost log = self@.log;
        let n = self.rows.len();
        let mut out: Vec<(i64, EventRecord)> = Vec::new();
        let mut i: usize = 0;
        while i < n && (out.len() as u64) < (query.limit as u64)
            invariant
                self.inv(),
                log == self@.log,
                f == query.filter(),
                n == log.len(),
                i <= n,
                out@.len() <= query.limit,
                row_views(out@) == cursor_prefix(log, f, query.after_rowid, i as int),
            decreases n - i,
        {
            let row = &self.rows[i];
            let rowid = (i as u64 + 1) as i64;
            let after_ok = match query.after_rowid {
                Some(a) => rowid > a,
                None => true,
            };
            if after_ok && record_passes(query.since_epoch, &query.label, query.event_type, &query.subject, row) {
                let ghost before = out@;
                out.push((rowid, row.duplicate()));
                assert(row_views(out@) =~= row_views(before).push((rowid as int, row@)));
            }
            i = i + 1;
        }
        proof {
            lemma_cursor_prefix_grows(log, f, query.after_rowid, i as int, n as int);
            if i < n {
                assert(cursor_prefix(log, f, query.after_rowid, i as int).len() == query.limit);
            }
            lemma_cursor_prefix_rowids(log, f, query.after_rowid, i as int);
            assert forall|k: int| 0 <= k < out@.len() implies filter_matches(f, (#[trigger] out@[k]).1@) && (query.after_rowid matches Some(a)
                ==> out@[k].0 > a) by {
                assert(row_views(out@)[k] == (out@[k].0 as int, out@[k].1@));
            }
            assert forall|k: int, l: int| 0 <= k < l < out@.len() implies (#[trigger] out@[k]).0 < (#[trigger] out@[l]).0 by {
                assert(row_views(out@)[k] == (out@[k].0 as int, out@[k].1@));
                assert(row_views(out@)[l] == (out@[l].0 as int, out@[l].1@));
            }
        }
        out
    }
}

impl EventStore for InMemoryEventStore {
    fn has_seen(&self, event_id: &str) -> Result<bool, AppError> {
        Ok(InMemoryEventStore::has_seen(self, event_id))
    }

    fn mark_seen(&mut self, event_id: &str) -> Result<(), AppError> {
        InMemoryEventStore::mark_seen(self, event_id);
        Ok(())
    }

    fn append_event(&mut self, event: &Event) -> Result<(), AppError> {
        let record = EventRecord {
            event: event.duplicate(),
            target_id: String::new(),
            labels: Vec::new(),
            detected_at_epoch: 0,
        };
        match self.append_record(&record) {
            Ok(_) => Ok(()),
            Err(e) => Err(e),
        }
    }

    fn append_event_record(&mut self, record: &EventRecord) -> Result<(), AppError> {
        match self.append_record(record) {
            Ok(_) => Ok(()),
            Err(e) => Err(e),
        }
    }

    fn list_events(&self, limit: u32) -> Result<Vec<Event>, AppError> {
        Ok(InMemoryEventStore::list_events(self, limit))
    }

    fn list_events_filtered(&self, query: EventQuery) -> Result<Vec<Event>, AppError> {
        Ok(InMemoryEventStore::list_events_filtered(self, query))
    }

    fn list_event_records_filtered(&self, query: EventQuery) -> Result<Vec<EventRecord>, AppError> {
        Ok(InMemoryEventStore::list_event_records_filtered(self, query))
    }

    fn list_event_records_cursor(&self, query: EventRecordQuery) -> Result<Vec<(i64, EventRecord)>, AppError> {
        Ok(InMemoryEventStore::list_event_records_cursor(self, query))
    }

    fn get_last_notified(&self, scope_key: &str) -> Result<Option<i64>, AppError> {
        Ok(InMemoryEventStore::get_last_notified(self, scope_key))
    }

    fn set_last_notified(&mut self, scope_key: &str, epoch_seconds: i64) -> Result<(), AppError> {
        InMemoryEventStore::set_last_notified(self, scope_key, epoch_seconds);
        Ok(())
    }
}

/// A fixed list of watch targets.
pub struct InMemoryTargetRepository {
    targets: Vec<WatchTarget>,
}

impl InMemoryTargetRepository {
    pub fn new(targets: Vec<WatchTarget>) -> (r: InMemoryTargetRepository)
        ensures
            r.targets() == target_views(targets@),
    {
        InMemoryTargetRepository { targets }
    }

    /// The configured targets, in order.
    pub closed spec fn targets(&self) -> Seq<TargetView> {
        target_views(self.targets@)
    }

    /// The enabled targets, in configured order.
    pub fn enabled_targets(&self) -> (r: Vec<WatchTarget>)
        ensures
            target_views(r@) == self.targets().filter(|t: TargetView| t.enabled),
    {
        let mut out: Vec<WatchTarget> = Vec::new();
        let mut i: usize = 0;
        while i < self.targets.len()
            invariant
                i <= self.targets@.len(),
                target_views(out@) == target_views(self.targets@).take(i as int).filter(|t: TargetView| t.enabled),
            decreases self.targets@.len() - i,
        {
            let t = &self.targets[i];
            let ghost before = out@;
            proof {
                let all = target_views(self.targets@);
                assert(all.take(i + 1).drop_last() =~= all.take(i as int));
                reveal(Seq::filter);
            }
            if t.enabled {
                out.push(t.duplicate());
                assert(target_views(out@) =~= target_views(before).push(t@));
            } else {
                assert(target_views(out@) =~= target_views(before));
            }
            i = i + 1;
        }
        assert(target_views(self.targets@).take(self.targets@.len() as int) =~= target_views(self.targets@));
        out
    }
}

/// The views of a list of targets.
pub open spec fn target_views(v: Seq<WatchTarget>) -> Seq<TargetView> {
    v.map_values(|t: WatchTarget| t@)
}

impl TargetRepository for InMemoryTargetRepository {
    fn list_enabled_targets(&self) -> Result<Vec<WatchTarget>, AppError> {
        Ok(self.enabled_targets())
    }
}

} // verus!

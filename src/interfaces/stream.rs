use vstd::prelude::*;

use crate::application::ports::{
    record_passes, row_views, EventRecord, EventRecordQuery, FilterView, RecordView, filter_matches,
};
use crate::domain::event::{copy_opt_text, opt_text, EventType};
use crate::infrastructure::memory_store::{cursor_prefix, cursor_rows, lemma_cursor_prefix_rowids, take_upto};

verus! {

/// Seconds between heartbeats on an idle stream.
pub const HEARTBEAT_SECONDS: u64 = 15;

/// One unit pushed to a stream client.
#[derive(Clone, Debug, PartialEq, Eq)]
pub enum StreamUnit {
    /// A stored row from the historical replay; `id` is its rowid.
    Replay { id: i64, record: EventRecord },
    /// A row announced live; `id` is its rowid.
    Live { id: i64, record: EventRecord },
    /// Keeps an idle connection open; carries no cursor.
    Heartbeat { at: i64 },
}

/// The rowid below which nothing is delivered: the client's cursor, or 0.
pub open spec fn start_cursor(after: Option<i64>) -> int {
    match after {
        Some(a) => a as int,
        None => 0,
    }
}

/// One row offered to a stream at `cursor`: rows at or below the cursor are
/// dropped (already delivered or skipped); any other row moves the cursor
/// and is delivered if it passes the filter.
pub open spec fn accept_step(cursor: int, f: FilterView, row: (int, RecordView)) -> (int, bool) {
    if row.0 <= cursor {
        (cursor, false)
    } else {
        (row.0, filter_matches(f, row.1))
    }
}

/// The cursor after offering `rows` in order, and the rows delivered.
pub open spec fn run_rows(cursor: int, f: FilterView, rows: Seq<(int, RecordView)>) -> (int, Seq<(int, RecordView)>)
    decreases rows.len(),
{
    if rows.len() == 0 {
        (cursor, Seq::empty())
    } else {
        let (c, out) = run_rows(cursor, f, rows.drop_last());
        let (c2, keep) = accept_step(c, f, rows.last());
        (c2, if keep { out.push(rows.last()) } else { out })
    }
}

/// The bus messages for rows `a .. b` of `log` (rowids `a + 1 ..= b`).
pub open spec fn live_msgs(log: Seq<RecordView>, a: int, b: int) -> Seq<(int, RecordView)> {
    Seq::new((b - a) as nat, |k: int| (a + k + 1, log[a + k]))
}

/// The rows with index in `a .. n` of `log` that pass `f` and have a rowid
/// above `c`, oldest first.
pub open spec fn window(log: Seq<RecordView>, f: FilterView, c: int, a: int, n: int) -> Seq<(int, RecordView)>
    decreases n - a,
{
    if n <= a {
        Seq::empty()
    } else {
        let prev = window(log, f, c, a, n - 1);
        if filter_matches(f, log[n - 1]) && n > c {
            prev.push((n, log[n - 1]))
        } else {
            prev
        }
    }
}

/// The rows delivered by stream units, with their rowids.
pub open spec fn unit_rows(units: Seq<StreamUnit>) -> Seq<(int, RecordView)> {
    units.map_values(|u: StreamUnit| match u {
        StreamUnit::Replay { id, record } => (id as int, record@),
        StreamUnit::Live { id, record } => (id as int, record@),
        StreamUnit::Heartbeat { .. } => (0int, arbitrary()),
    })
}

/// The per-connection state of a resumable stream: its filter and the
/// rowid of the last row it has passed.
pub struct StreamSession {
    since_epoch: Option<i64>,
    after_rowid: Option<i64>,
    label: Option<String>,
    event_type: Option<EventType>,
    subject: Option<String>,
    cursor: i64,
}

impl StreamSession {
    /// The filter the session applies to replayed and live rows alike.
    pub closed spec fn filter(&self) -> FilterView {
        FilterView {
            since_epoch: self.since_epoch,
            label: opt_text(self.label),
            event_type: self.event_type,
            subject: opt_text(self.subject),
        }
    }

    /// The rowid at or below which rows are no longer delivered.
    pub closed spec fn cursor(&self) -> int {
        self.cursor as int
    }

    /// The last-seen rowid the client connected with.
    pub closed spec fn after_rowid(&self) -> Option<i64> {
        self.after_rowid
    }

    /// A session for a client that last saw `after_rowid` (if any).
    pub fn new(
        since_epoch: Option<i64>,
        after_rowid: Option<i64>,
        label: Option<String>,
        event_type: Option<EventType>,
        subject: Option<String>,
    ) -> (r: StreamSession)
        ensures
            r.filter() == (FilterView {
                since_epoch,
                label: opt_text(label),
                event_type,
                subject: opt_text(subject),
            }),
            r.cursor() == start_cursor(after_rowid),
            r.after_rowid() == after_rowid,
    {
        let cursor = match after_rowid {
            Some(a) => a,
            None => 0,
        };
        StreamSession { since_epoch, after_rowid, label, event_type, subject, cursor }
    }

    /// The replay query: the session's filter, after the client's cursor,
    /// at most `cap` rows.
    pub fn replay_query(&self, cap: u32) -> (q: EventRecordQuery)
        ensures
            q.filter() == self.filter(),
            q.after_rowid == self.after_rowid(),
            q.limit == cap,
    {
        EventRecordQuery {
            since_epoch: self.since_epoch,
            after_rowid: self.after_rowid,
            limit: cap,
            label: copy_opt_text(&self.label),
            event_type: self.event_type,
            subject: copy_opt_text(&self.subject),
        }
    }

    /// The query that recovers what a lagging live feed dropped: the
    /// session's filter, after the session's cursor, at most `cap` rows.
    pub fn resync_query(&self, cap: u32) -> (q: EventRecordQuery)
        ensures
            q.filter() == self.filter(),
            q.after_rowid == Some(self.cursor() as i64),
            q.limit == cap,
    {
        EventRecordQuery {
            since_epoch: self.since_epoch,
            after_rowid: Some(self.cursor),
            limit: cap,
            label: copy_opt_text(&self.label),
            event_type: self.event_type,
            subject: copy_opt_text(&self.subject),
        }
    }

    /// Offers one row; whether it is delivered.
    fn accept(&mut self, rowid: i64, record: &EventRecord) -> (keep: bool)
        ensures
            (final(self).cursor(), keep) == accept_step(old(self).cursor(), old(self).filter(), (rowid as int, record@)),
            final(self).filter() == old(self).filter(),
            final(self).after_rowid() == old(self).after_rowid(),
    {
        if rowid <= self.cursor {
            false
        } else {
            self.cursor = rowid;
            record_passes(self.since_epoch, &self.label, self.event_type, &self.subject, record)
        }
    }

    /// The replay units for rows from the store, oldest first.
    pub fn on_replay(&mut self, rows: &Vec<(i64, EventRecord)>) -> (units: Vec<StreamUnit>)
        ensures
            forall|k: int| 0 <= k < units@.len() ==> #[trigger] units@[k] is Replay,
            unit_rows(units@) == run_rows(old(self).cursor(), old(self).filter(), row_views(rows@)).1,
            final(self).cursor() == run_rows(old(self).cursor(), old(self).filter(), row_views(rows@)).0,
            final(self).filter() == old(self).filter(),
            final(self).after_rowid() == old(self).after_rowid(),
    {
        let mut out: Vec<StreamUnit> = Vec::new();
        let mut i: usize = 0;
        while i < rows.len()
            invariant
                i <= rows@.len(),
                forall|k: int| 0 <= k < out@.len() ==> #[trigger] out@[k] is Replay,
                (self.cursor(), unit_rows(out@)) == run_rows(old(self).cursor(), old(self).filter(), row_views(rows@).take(i as int)),
                self.filter() == old(self).filter(),
                self.after_rowid() == old(self).after_rowid(),
            decreases rows@.len() - i,
        {
            let (rowid, record) = &rows[i];
            assert(row_views(rows@).take(i + 1).drop_last() =~= row_views(rows@).take(i as int));
            let ghost before = out@;
            if self.accept(*rowid, record) {
                out.push(StreamUnit::Replay { id: *rowid, record: record.duplicate() });
                assert(unit_rows(out@) =~= unit_rows(before).push((*rowid as int, record@)));
            }
            i = i + 1;
        }
        assert(row_views(rows@).take(rows@.len() as int) =~= row_views(rows@));
        out
    }

    /// The live unit for a row announced on the bus, if it is delivered.
    pub fn on_live(&mut self, rowid: i64, record: &EventRecord) -> (u: Option<StreamUnit>)
        ensures
            (final(self).cursor(), u is Some) == accept_step(old(self).cursor(), old(self).filter(), (rowid as int, record@)),
            u matches Some(x) ==> x is Live && unit_rows(seq![x]) == seq![(rowid as int, record@)],
            final(self).filter() == old(self).filter(),
            final(self).after_rowid() == old(self).after_rowid(),
    {
        if self.accept(rowid, record) {
            let u = StreamUnit::Live { id: rowid, record: record.duplicate() };
            assert(unit_rows(seq![u])[0] == (rowid as int, record@));
            assert(unit_rows(seq![u]) =~= seq![(rowid as int, record@)]);
            Some(u)
        } else {
            None
        }
    }

    /// A heartbeat stamped `now`.
    pub fn heartbeat(&self, now: i64) -> (u: StreamUnit)
        ensures
            u == (StreamUnit::Heartbeat { at: now }),
    {
        StreamUnit::Heartbeat { at: now }
    }
}

/// Offering `s1 + s2` is offering `s1`, then `s2` from where `s1` left the cursor.
pub proof fn lemma_run_concat(c: int, f: FilterView, s1: Seq<(int, RecordView)>, s2: Seq<(int, RecordView)>)
    ensures
        run_rows(c, f, s1 + s2) == (
            run_rows(run_rows(c, f, s1).0, f, s2).0,
            run_rows(c, f, s1).1 + run_rows(run_rows(c, f, s1).0, f, s2).1,
        ),
    decreases s2.len(),
{
    if s2.len() == 0 {
        assert(s1 + s2 =~= s1);
        assert(run_rows(c, f, s1).1 + Seq::<(int, RecordView)>::empty() =~= run_rows(c, f, s1).1);
    } else {
        lemma_run_concat(c, f, s1, s2.drop_last());
        assert((s1 + s2).drop_last() =~= s1 + s2.drop_last());
        assert((s1 + s2).last() == s2.last());
        let mid = run_rows(c, f, s1);
        let rest = run_rows(mid.0, f, s2.drop_last());
        assert(mid.1 + rest.1.push(s2.last()) =~= (mid.1 + rest.1).push(s2.last()));
    }
}

/// A replay from the store is delivered whole, and leaves the cursor at its
/// last rowid.
pub proof fn lemma_replay_delivered(log: Seq<RecordView>, f: FilterView, after: Option<i64>, n: int)
    requires
        0 <= n <= log.len(),
    ensures
        ({
            let p = cursor_prefix(log, f, after, n);
            run_rows(start_cursor(after), f, p) == (
                if p.len() > 0 { p.last().0 } else { start_cursor(after) },
                p,
            )
        }),
    decreases n,
{
    if n > 0 {
        lemma_replay_delivered(log, f, after, n - 1);
        lemma_cursor_prefix_rowids(log, f, after, n - 1);
        let prev = cursor_prefix(log, f, after, n - 1);
        let p = cursor_prefix(log, f, after, n);
        if p.len() > prev.len() {
            assert(p.drop_last() =~= prev);
            if prev.len() > 0 {
                assert(prev.last().0 <= n - 1);
            }
        }
    }
}

/// Live messages for consecutive rows are delivered exactly when they pass
/// the filter and lie above the starting cursor.
pub proof fn lemma_live_delivered(log: Seq<RecordView>, f: FilterView, c: int, a: int, b: int)
    requires
        0 <= a <= b <= log.len(),
    ensures
        run_rows(c, f, live_msgs(log, a, b)) == (
            if b > a && b > c { b } else { c },
            window(log, f, c, a, b),
        ),
    decreases b - a,
{
    if b > a {
        lemma_live_delivered(log, f, c, a, b - 1);
        assert(live_msgs(log, a, b).drop_last() =~= live_msgs(log, a, b - 1));
        assert(live_msgs(log, a, b).last() == (b, log[b - 1]));
    } else {
        assert(live_msgs(log, a, b) =~= Seq::<(int, RecordView)>::empty());
    }
}

/// A cursor query over a prefix of a log sees only that prefix.
pub proof fn lemma_cursor_prefix_stable(
    log: Seq<RecordView>,
    longer: Seq<RecordView>,
    f: FilterView,
    after: Option<i64>,
    n: int,
)
    requires
        log.is_prefix_of(longer),
        0 <= n <= log.len(),
    ensures
        cursor_prefix(longer, f, after, n) == cursor_prefix(log, f, after, n),
    decreases n,
{
    if n > 0 {
        lemma_cursor_prefix_stable(log, longer, f, after, n - 1);
        assert(longer[n - 1] == log[n - 1]);
    }
}

/// The cursor rows up to `n` are those up to `m` followed by the window `m .. n`.
pub proof fn lemma_cursor_split(log: Seq<RecordView>, f: FilterView, after: Option<i64>, m: int, n: int)
    requires
        0 <= m <= n <= log.len(),
    ensures
        cursor_prefix(log, f, after, n) == cursor_prefix(log, f, after, m) + window(
            log,
            f,
            start_cursor(after),
            m,
            n,
        ),
    decreases n - m,
{
    if n > m {
        lemma_cursor_split(log, f, after, m, n - 1);
        let a = cursor_prefix(log, f, after, m);
        let w = window(log, f, start_cursor(after), m, n - 1);
        assert((a + w).push((n, log[n - 1])) =~= a + w.push((n, log[n - 1])));
    } else {
        assert(cursor_prefix(log, f, after, m) + Seq::<(int, RecordView)>::empty() =~= cursor_prefix(log, f, after, m));
    }
}

/// Every passing row above the start cursor among the first `n` is at or
/// below the last rowid of the cursor rows.
pub proof fn lemma_cursor_covers(log: Seq<RecordView>, f: FilterView, after: Option<i64>, n: int)
    requires
        0 <= n <= log.len(),
    ensures
        forall|i: int|
            0 <= i < n && filter_matches(f, #[trigger] log[i]) && i + 1 > start_cursor(after) ==> {
                let p = cursor_prefix(log, f, after, n);
                p.len() > 0 && i + 1 <= p.last().0
            },
    decreases n,
{
    if n > 0 {
        lemma_cursor_covers(log, f, after, n - 1);
        lemma_cursor_prefix_rowids(log, f, after, n - 1);
    }
}

/// A window started from the replay's last cursor `c1` equals the window of
/// rows after the replayed prefix `l`, when every passing row in `a0 .. l`
/// above `t` is at or below `c1`.
pub proof fn lemma_window_shift(log: Seq<RecordView>, f: FilterView, c1: int, t: int, a0: int, l: int, n: int)
    requires
        0 <= a0 <= l <= n <= log.len(),
        t <= c1,
        c1 <= l || c1 == t,
        forall|i: int| a0 <= i < l && filter_matches(f, #[trigger] log[i]) && i + 1 > t ==> i + 1 <= c1,
    ensures
        window(log, f, c1, a0, n) == window(log, f, t, l, n),
    decreases n,
{
    if n > l {
        lemma_window_shift(log, f, c1, t, a0, l, n - 1);
    } else {
        lemma_window_empty(log, f, c1, t, a0, l, n);
    }
}

proof fn lemma_window_empty(log: Seq<RecordView>, f: FilterView, c1: int, t: int, a0: int, l: int, n: int)
    requires
        0 <= a0 <= l <= log.len(),
        n <= l,
        t <= c1,
        forall|i: int| a0 <= i < l && filter_matches(f, #[trigger] log[i]) && i + 1 > t ==> i + 1 <= c1,
    ensures
        window(log, f, c1, a0, n) == Seq::<(int, RecordView)>::empty(),
    decreases n - a0,
{
    if n > a0 {
        lemma_window_empty(log, f, c1, t, a0, l, n - 1);
    }
}

/// Resuming after rowid `after`: the live subscription is opened on the log
/// `at_subscribe`, the replay query runs on the longer `at_replay` and
/// returns at most `cap` rows, and the bus then announces every row of
/// `at_end` past `at_subscribe`, in order. When the replay is not cut short
/// by `cap`, the rows delivered are exactly the passing rows of `at_end`
/// above `after`, in ascending rowid order, none twice.
pub proof fn lemma_resume_without_loss(
    at_subscribe: Seq<RecordView>,
    at_replay: Seq<RecordView>,
    at_end: Seq<RecordView>,
    f: FilterView,
    after: Option<i64>,
    cap: int,
)
    requires
        at_subscribe.is_prefix_of(at_replay),
        at_replay.is_prefix_of(at_end),
        cursor_rows(at_replay, f, after).len() <= cap,
    ensures
        ({
            let replay = take_upto(cursor_rows(at_replay, f, after), cap);
            let live = live_msgs(at_end, at_subscribe.len() as int, at_end.len() as int);
            let out = run_rows(start_cursor(after), f, replay + live).1;
            &&& out == cursor_rows(at_end, f, after)
            &&& forall|k: int, m: int| 0 <= k < m < out.len() ==> (#[trigger] out[k]).0 < (#[trigger] out[m]).0
        }),
{
    let l = at_replay.len() as int;
    let a0 = at_subscribe.len() as int;
    let n = at_end.len() as int;
    let t = start_cursor(after);
    let replay = cursor_rows(at_replay, f, after);
    let live = live_msgs(at_end, a0, n);
    lemma_run_concat(t, f, replay, live);
    lemma_replay_delivered(at_replay, f, after, l);
    let c1 = if replay.len() > 0 { replay.last().0 } else { t };
    lemma_live_delivered(at_end, f, c1, a0, n);
    lemma_cursor_prefix_rowids(at_replay, f, after, l);
    lemma_cursor_covers(at_replay, f, after, l);
    assert forall|i: int| a0 <= i < l && filter_matches(f, #[trigger] at_end[i]) && i + 1 > t implies i + 1 <= c1 by {
        assert(at_end[i] == at_replay[i]);
    }
    if replay.len() > 0 {
        assert(replay.last().0 <= l);
        assert(t < replay.last().0) by {
            match after {
                Some(a) => {},
                None => {},
            }
        }
    }
    lemma_window_shift(at_end, f, c1, t, a0, l, n);
    lemma_cursor_prefix_stable(at_replay, at_end, f, after, l);
    lemma_cursor_split(at_end, f, after, l, n);
    lemma_cursor_prefix_rowids(at_end, f, after, n);
}

} // verus!

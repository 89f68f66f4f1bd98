use vstd::prelude::*;
use vstd::string::*;

use crate::application::ports::{AppError, Notifier};
use crate::domain::event::{event_type_text, Event, EventView};

verus! {

/// `prefix` and the value, when there is one.
pub open spec fn opt_line(prefix: Seq<char>, v: Option<Seq<char>>) -> Seq<char> {
    match v {
        Some(x) => prefix + x,
        None => Seq::empty(),
    }
}

/// The text of a change notification, one fact per line.
pub open spec fn event_text(e: EventView) -> Seq<char> {
    "🔔 RepoPulse 检测到更新"@
        + "\n📢 事件类型: "@ + event_type_text(e.event_type)
        + "\n🎯 对象: "@ + e.subject
        + match e.old_value {
            Some(old) => "\n变化: "@ + old + " -> "@ + e.new_value,
            None => "\n新值: "@ + e.new_value,
        }
        + opt_line("\n发生时间: "@, e.occurred_at)
        + "\n检测时间: "@ + e.detected_at
        + opt_line("\n详情: "@, e.url)
}

/// The text of a change notification for a chat webhook.
pub fn format_event_text(event: &Event) -> (r: String)
    ensures
        r@ == event_text(event@),
{
    let mut out = String::from_str("🔔 RepoPulse 检测到更新");
    out.append("\n📢 事件类型: ");
    out.append(event.event_type.name());
    out.append("\n🎯 对象: ");
    out.append(event.subject.as_str());
    let ghost head = out@;
    match &event.old_value {
        Some(old) => {
            out.append("\n变化: ");
            out.append(old.as_str());
            out.append(" -> ");
            out.append(event.new_value.as_str());
        },
        None => {
            out.append("\n新值: ");
            out.append(event.new_value.as_str());
        },
    }
    let ghost mid = out@;
    if let Some(t) = &event.occurred_at {
        out.append("\n发生时间: ");
        out.append(t.as_str());
    }
    let ghost with_time = out@;
    out.append("\n检测时间: ");
    out.append(event.detected_at.as_str());
    let ghost with_detected = out@;
    if let Some(u) = &event.url {
        out.append("\n详情: ");
        out.append(u.as_str());
    }
    proof {
        let e = event@;
        let changed = match e.old_value {
            Some(old) => "\n变化: "@ + old + " -> "@ + e.new_value,
            None => "\n新值: "@ + e.new_value,
        };
        assert(mid =~= head + changed);
        assert(with_time =~= mid + opt_line("\n发生时间: "@, e.occurred_at));
        assert(with_detected =~= with_time + "\n检测时间: "@ + e.detected_at);
        assert(out@ =~= with_detected + opt_line("\n详情: "@, e.url));
        assert(out@ =~= event_text(event@));
    }
    out
}

/// The failures among notifier results, each with its notifier's index,
/// in index order.
pub open spec fn failures_of(results: Seq<Result<(), AppError>>) -> Seq<(usize, AppError)>
    decreases results.len(),
{
    if results.len() == 0 {
        Seq::empty()
    } else {
        let prev = failures_of(results.drop_last());
        match results.last() {
            Ok(()) => prev,
            Err(e) => prev.push(((results.len() - 1) as usize, e)),
        }
    }
}

/// Sends every notification through each of several notifiers; a failing
/// one does not keep the others from being tried.
pub struct MultiNotifier<N> {
    notifiers: Vec<N>,
}

impl<N: Notifier> MultiNotifier<N> {
    pub fn new(notifiers: Vec<N>) -> (r: MultiNotifier<N>)
        ensures
            r.notifiers() == notifiers@,
    {
        MultiNotifier { notifiers }
    }

    /// The notifiers, in order.
    pub closed spec fn notifiers(&self) -> Seq<N> {
        self.notifiers@
    }

    /// Tries every notifier once, in order, with `event`; the failures, by
    /// notifier index, in index order.
    pub fn deliver(&self, event: &Event) -> (failures: Vec<(usize, AppError)>)
        ensures
            exists|results: Seq<Result<(), AppError>>|
                results.len() == self.notifiers().len()
                    && (forall|i: int| 0 <= i < results.len() ==> call_ensures(N::notify, (&self.notifiers()[i], event), #[trigger] results[i]))
                    && failures@ == failures_of(results),
    {
        let mut failures: Vec<(usize, AppError)> = Vec::new();
        let ghost mut results: Seq<Result<(), AppError>> = Seq::empty();
        let mut i: usize = 0;
        while i < self.notifiers.len()
            invariant
                i <= self.notifiers@.len(),
                results.len() == i,
                forall|k: int| 0 <= k < i ==> call_ensures(N::notify, (&self.notifiers@[k], event), #[trigger] results[k]),
                failures@ == failures_of(results),
            decreases self.notifiers@.len() - i,
        {
            let res = self.notifiers[i].notify(event);
            let ghost old_results = results;
            proof {
                results = results.push(res);
                assert(results.drop_last() =~= old_results);
                assert forall|k: int| 0 <= k < i + 1 implies call_ensures(N::notify, (&self.notifiers@[k], event), #[trigger] results[k]) by {
                    if k < i {
                        assert(results[k] == old_results[k]);
                    }
                }
            }
            match res {
                Ok(()) => {},
                Err(e) => {
                    failures.push((i, e));
                },
            }
            i = i + 1;
        }
        failures
    }
}

impl<N: Notifier> Notifier for MultiNotifier<N> {
    /// Delivery is best effort: failures are not reported to the caller.
    fn notify(&self, event: &Event) -> Result<(), AppError> {
        let _ = self.deliver(event);
        Ok(())
    }
}

} // verus!

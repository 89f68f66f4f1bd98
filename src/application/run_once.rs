use vstd::prelude::*;

use crate::application::handle_event::{ingest_post, lemma_handle_appends, HandleEventUseCase, Handled};
use crate::application::ports::{
    texts, AppError, EventPublisher, Notifier, TargetRepository, WatchProvider,
};
use crate::domain::event::Event;
use crate::domain::watch_target::WatchTarget;
use crate::infrastructure::memory_store::{InMemoryEventStore, StoreState};

verus! {

/// What a poll cycle did with one target.
#[derive(Clone, Debug, PartialEq, Eq)]
pub enum TargetOutcome {
    /// The target is disabled.
    Skipped,
    /// The provider saw no change.
    NoChange,
    /// The provider failed; the cycle went on.
    ProviderFailed(AppError),
    /// A change was handled.
    Handled(Handled),
    /// A change was detected and its handling failed; the cycle went on.
    HandleFailed(AppError),
}

/// What acting on the provider's answer `check` for `target` at `now` does:
/// a change goes through the ingestion pipeline (taking the store from `s`
/// to `t`); no change and a provider failure leave the store as it was.
pub open spec fn check_post<N: Notifier>(
    h: HandleEventUseCase,
    notifier: &N,
    s: StoreState,
    t: StoreState,
    target: WatchTarget,
    check: Result<Option<Event>, AppError>,
    r: TargetOutcome,
    now: i64,
) -> bool {
    match check {
        Err(e) => r == TargetOutcome::ProviderFailed(e) && t == s,
        Ok(None) => r == TargetOutcome::NoChange && t == s,
        Ok(Some(ev)) => {
            let res = match r {
                TargetOutcome::Handled(x) => Some(Ok::<Handled, AppError>(x)),
                TargetOutcome::HandleFailed(e) => Some(Err::<Handled, AppError>(e)),
                _ => None,
            };
            &&& res is Some
            &&& ingest_post(
                notifier,
                &ev,
                s,
                t,
                res->Some_0,
                target.id@,
                texts(target.labels@),
                now,
                h.cooldown_seconds,
                h.scope,
            )
        },
    }
}

/// One position of a poll cycle: a disabled target is skipped and leaves
/// the store (`s` to `t`) as it was; an enabled one is checked once, and
/// `check` is what the provider returned for it.
pub open spec fn cycle_step<W: WatchProvider, N: Notifier>(
    h: HandleEventUseCase,
    provider: &W,
    notifier: &N,
    target: WatchTarget,
    out: TargetOutcome,
    s: StoreState,
    t: StoreState,
    check: Result<Option<Event>, AppError>,
    now: i64,
) -> bool {
    if !target.enabled {
        out == TargetOutcome::Skipped && t == s
    } else {
        call_ensures(W::check, (provider, &target), check) && check_post(h, notifier, s, t, target, check, out, now)
    }
}

/// A poll cycle over `targets` took the store from `s` to `t` and produced
/// `outs`: there are intermediate store states and provider answers such
/// that every position is a [`cycle_step`].
pub open spec fn cycle_post<W: WatchProvider, N: Notifier>(
    h: HandleEventUseCase,
    provider: &W,
    notifier: &N,
    targets: Seq<WatchTarget>,
    outs: Seq<TargetOutcome>,
    s: StoreState,
    t: StoreState,
    now: i64,
) -> bool {
    exists|states: Seq<StoreState>, checks: Seq<Result<Option<Event>, AppError>>|
        #[trigger] cycle_steps(h, provider, notifier, targets, outs, s, t, now, states, checks)
}

pub open spec fn cycle_steps<W: WatchProvider, N: Notifier>(
    h: HandleEventUseCase,
    provider: &W,
    notifier: &N,
    targets: Seq<WatchTarget>,
    outs: Seq<TargetOutcome>,
    s: StoreState,
    t: StoreState,
    now: i64,
    states: Seq<StoreState>,
    checks: Seq<Result<Option<Event>, AppError>>,
) -> bool {
    &&& outs.len() == targets.len()
    &&& states.len() == targets.len() + 1
    &&& checks.len() == targets.len()
    &&& states[0] == s
    &&& states[targets.len() as int] == t
    &&& forall|i: int|
        0 <= i < targets.len() ==> #[trigger] cycle_step(
            h,
            provider,
            notifier,
            targets[i],
            outs[i],
            states[i],
            states[i + 1],
            checks[i],
            now,
        )
}

/// The repository listed some targets, and a poll cycle over them took the
/// store from `s` to `t` with outcomes `outs`.
pub open spec fn listed_cycle<T: TargetRepository, W: WatchProvider, N: Notifier>(
    h: HandleEventUseCase,
    targets: &T,
    provider: &W,
    notifier: &N,
    outs: Seq<TargetOutcome>,
    s: StoreState,
    t: StoreState,
    now: i64,
) -> bool {
    exists|list: Vec<WatchTarget>|
        call_ensures(T::list_enabled_targets, (targets,), Ok::<Vec<WatchTarget>, AppError>(list))
            && #[trigger] cycle_post(h, provider, notifier, list@, outs, s, t, now)
}

/// One poll cycle over all enabled targets.
#[derive(Clone, Copy, Debug)]
pub struct RunOnceUseCase {
    pub handle_event: HandleEventUseCase,
}

impl RunOnceUseCase {
    /// Acts on a provider's answer for `target`: a change goes through the
    /// ingestion pipeline; no change and provider failures leave the store
    /// as it was.
    pub fn handle_check<N: Notifier, P: EventPublisher>(
        &self,
        target: &WatchTarget,
        check: Result<Option<Event>, AppError>,
        store: &mut InMemoryEventStore,
        notifier: &N,
        publisher: &P,
        now: i64,
    ) -> (r: TargetOutcome)
        ensures
            old(store)@.log.is_prefix_of(final(store)@.log),
            check_post(self.handle_event, notifier, old(store)@, final(store)@, *target, check, r, now),
    {
        match check {
            Err(e) => TargetOutcome::ProviderFailed(e),
            Ok(None) => TargetOutcome::NoChange,
            Ok(Some(event)) => {
                let res = self.handle_event.execute(store, notifier, publisher, &event, &target.id, &target.labels, now);
                proof {
                    let sent = choose|sent: Result<(), AppError>|
                        (crate::application::handle_event::notify_due(crate::application::handle_event::ingest_plan(
                            old(store)@,
                            event@,
                            target.id@,
                            texts(target.labels@),
                            now,
                            self.handle_event.cooldown_seconds,
                            self.handle_event.scope,
                        )) ==> call_ensures(N::notify, (notifier, &event), sent)) && #[trigger] crate::application::handle_event::handle_post(
                            old(store)@,
                            store@,
                            res,
                            event@,
                            target.id@,
                            texts(target.labels@),
                            now,
                            self.handle_event.cooldown_seconds,
                            self.handle_event.scope,
                            sent,
                        );
                    lemma_handle_appends(
                        old(store)@,
                        store@,
                        res,
                        event@,
                        target.id@,
                        texts(target.labels@),
                        now,
                        self.handle_event.cooldown_seconds,
                        self.handle_event.scope,
                        sent,
                    );
                }
                match res {
                    Ok(h) => TargetOutcome::Handled(h),
                    Err(e) => TargetOutcome::HandleFailed(e),
                }
            },
        }
    }

    /// Polls `targets` in order: each enabled target is checked once and its
    /// answer acted on, each disabled one skipped; a failure never stops the
    /// cycle.
    pub fn run_targets<W: WatchProvider, N: Notifier, P: EventPublisher>(
        &self,
        targets: &Vec<WatchTarget>,
        provider: &W,
        store: &mut InMemoryEventStore,
        notifier: &N,
        publisher: &P,
        now: i64,
    ) -> (r: Vec<TargetOutcome>)
        ensures
            cycle_post(self.handle_event, provider, notifier, targets@, r@, old(store)@, final(store)@, now),
            old(store)@.log.is_prefix_of(final(store)@.log),
    {
        let mut out: Vec<TargetOutcome> = Vec::new();
        let ghost mut states: Seq<StoreState> = seq![store@];
        let ghost mut checks: Seq<Result<Option<Event>, AppError>> = Seq::empty();
        let mut i: usize = 0;
        while i < targets.len()
            invariant
                i <= targets@.len(),
                out@.len() == i,
                states.len() == i + 1,
                checks.len() == i,
                states[0] == old(store)@,
                states[i as int] == store@,
                forall|j: int|
                    0 <= j < i ==> #[trigger] cycle_step(
                        self.handle_event,
                        provider,
                        notifier,
                        targets@[j],
                        out@[j],
                        states[j],
                        states[j + 1],
                        checks[j],
                        now,
                    ),
                old(store)@.log.is_prefix_of(store@.log),
            decreases targets@.len() - i,
        {
            let t = &targets[i];
            let ghost before = store@;
            let ghost old_out = out@;
            let ghost old_states = states;
            let ghost old_checks = checks;
            if !t.enabled {
                out.push(TargetOutcome::Skipped);
                proof {
                    checks = checks.push(Ok(None));
                }
            } else {
                let check = provider.check(t);
                proof {
                    checks = checks.push(check);
                }
                let o = self.handle_check(t, check, store, notifier, publisher, now);
                out.push(o);
            }
            proof {
                states = states.push(store@);
                assert forall|j: int| 0 <= j < i + 1 implies #[trigger] cycle_step(
                    self.handle_event,
                    provider,
                    notifier,
                    targets@[j],
                    out@[j],
                    states[j],
                    states[j + 1],
                    checks[j],
                    now,
                ) by {
                    if j < i {
                        assert(out@[j] == old_out[j]);
                        assert(states[j] == old_states[j]);
                        assert(states[j + 1] == old_states[j + 1]);
                        assert(checks[j] == old_checks[j]);
                    }
                }
            }
            i = i + 1;
        }
        proof {
            assert(cycle_steps(self.handle_event, provider, notifier, targets@, out@, old(store)@, store@, now, states, checks));
        }
        out
    }

    /// One poll cycle: lists the enabled targets and polls each of them.
    /// It fails, touching nothing, exactly when the listing fails, with the
    /// listing's error; otherwise it is [`Self::run_targets`] on the list.
    pub fn execute<T: TargetRepository, W: WatchProvider, N: Notifier, P: EventPublisher>(
        &self,
        targets: &T,
        provider: &W,
        store: &mut InMemoryEventStore,
        notifier: &N,
        publisher: &P,
        now: i64,
    ) -> (r: Result<Vec<TargetOutcome>, AppError>)
        ensures
            r is Err ==> call_ensures(T::list_enabled_targets, (targets,), Err::<Vec<WatchTarget>, AppError>(r->Err_0))
                && final(store)@ == old(store)@,
            r is Ok ==> listed_cycle(self.handle_event, targets, provider, notifier, (r->Ok_0)@, old(store)@, final(store)@, now),
            old(store)@.log.is_prefix_of(final(store)@.log),
    {
        let listed = targets.list_enabled_targets();
        let list = match listed {
            Ok(v) => v,
            Err(e) => return Err(e),
        };
        let outs = self.run_targets(&list, provider, store, notifier, publisher, now);
        proof {
            assert(call_ensures(T::list_enabled_targets, (targets,), Ok::<Vec<WatchTarget>, AppError>(list)));
            assert(cycle_post(self.handle_event, provider, notifier, list@, outs@, old(store)@, store@, now));
            assert(listed_cycle(self.handle_event, targets, provider, notifier, outs@, old(store)@, store@, now));
        }
        Ok(outs)
    }
}

} // verus!

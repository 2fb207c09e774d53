//! Event waits: which threads wait for which events, signals that arrive
//! before anyone waits (latched as pending), and timer expiry.
use vstd::prelude::*;
use crate::task::{MAX_THREADS, TaskManager, Thread, ThreadState};

verus! {

/// Something a thread can wait for.
#[derive(Debug, Clone, Copy, PartialEq, Eq, Structural)]
pub enum AsyncEvent {
    Generic(u64),
    IO(i32),
    Timer(u64),
    Read(i32),
    Write(i32),
}

/// A thread waiting for an event.
#[derive(Clone, Copy)]
pub struct EventRegistration {
    pub thread_idx: usize,
    pub event: AsyncEvent,
}

/// A signal that arrived for a thread before it waited.
#[derive(Clone, Copy)]
pub struct PendingEvent {
    pub thread_idx: usize,
    pub event: AsyncEvent,
}

/// The wait lists.
pub struct EventManager {
    pub registrations: Vec<EventRegistration>,
    pub pending: Vec<PendingEvent>,
}

/// Whether a registration is a timer that has expired at `ticks`.
pub open spec fn is_expired(r: EventRegistration, ticks: u64) -> bool {
    r.event matches AsyncEvent::Timer(target) && ticks >= target
}

/// Whether thread `t` holds an expired timer in `regs`.
pub open spec fn has_expired_timer(regs: Seq<EventRegistration>, t: usize, ticks: u64) -> bool {
    exists|i: int| 0 <= i < regs.len() && #[trigger] regs[i].thread_idx == t && is_expired(regs[i], ticks)
}

/// Whether thread `t` is woken by `event`: it waits for it and sleeps in
/// `WaitingForEvent`.
pub open spec fn woken_by(regs: Seq<EventRegistration>, tasks: Seq<Option<Thread>>, event: AsyncEvent, t: usize) -> bool {
    &&& t < tasks.len()
    &&& tasks[t as int] is Some
    &&& tasks[t as int]->0.state == ThreadState::WaitingForEvent
    &&& exists|i: int| 0 <= i < regs.len() && #[trigger] regs[i].thread_idx == t && regs[i].event == event
}

/// A thread slot made ready if it waits for an event.
pub open spec fn wake(t: Option<Thread>) -> Option<Thread> {
    match t {
        Some(th) => if th.state == ThreadState::WaitingForEvent {
            Some(Thread { state: ThreadState::Ready, ..th })
        } else {
            Some(th)
        },
        None => None,
    }
}

/// The registration form of a pending signal.
pub open spec fn pending_pair(p: PendingEvent) -> (usize, AsyncEvent) {
    (p.thread_idx, p.event)
}

/// The registration form of a registration.
pub open spec fn reg_pair(r: EventRegistration) -> (usize, AsyncEvent) {
    (r.thread_idx, r.event)
}

/// The registrations after thread `t` registers for `e`: unchanged when
/// `t` is not a thread slot or already waits for `e`, else with the new
/// registration last.
pub open spec fn registered_one(regs: Seq<EventRegistration>, t: usize, e: AsyncEvent) -> Seq<EventRegistration> {
    if t >= MAX_THREADS || exists|j: int| 0 <= j < regs.len() && #[trigger] reg_pair(regs[j]) == (t, e) {
        regs
    } else {
        regs.push(EventRegistration { thread_idx: t, event: e })
    }
}

/// Whether no thread waits twice for the same event in `regs`.
pub open spec fn pairs_distinct(regs: Seq<EventRegistration>) -> bool {
    forall|i: int, j: int|
        #![trigger regs[i], regs[j]]
        0 <= i < j < regs.len() ==> reg_pair(regs[i]) != reg_pair(regs[j])
}

/// Whether thread `t` waits for `e` exactly once in `regs`.
pub open spec fn held_once(regs: Seq<EventRegistration>, t: usize, e: AsyncEvent) -> bool {
    exists|k: int|
        0 <= k < regs.len() && #[trigger] reg_pair(regs[k]) == (t, e) && forall|j: int|
            0 <= j < regs.len() && j != k ==> #[trigger] reg_pair(regs[j]) != (t, e)
}

/// Registering keeps the registrations free of repeats, and afterwards a
/// thread slot waits for the event exactly once; registering the same
/// pair again changes nothing.
pub proof fn lemma_register_once(regs: Seq<EventRegistration>, t: usize, e: AsyncEvent)
    requires
        pairs_distinct(regs),
    ensures
        pairs_distinct(registered_one(regs, t, e)),
        t < MAX_THREADS ==> held_once(registered_one(regs, t, e), t, e),
        registered_one(registered_one(regs, t, e), t, e) == registered_one(regs, t, e),
{
    let r = registered_one(regs, t, e);
    if t < MAX_THREADS {
        if exists|j: int| 0 <= j < regs.len() && #[trigger] reg_pair(regs[j]) == (t, e) {
            let k = choose|j: int| 0 <= j < regs.len() && #[trigger] reg_pair(regs[j]) == (t, e);
            assert forall|j: int| 0 <= j < regs.len() && j != k implies #[trigger] reg_pair(regs[j]) != (t, e) by {
                if j < k {
                    assert(reg_pair(regs[j]) != reg_pair(regs[k]));
                } else {
                    assert(reg_pair(regs[k]) != reg_pair(regs[j]));
                }
            }
        } else {
            let k = regs.len() as int;
            assert(r[k] == EventRegistration { thread_idx: t, event: e });
            assert(reg_pair(r[k]) == (t, e));
            assert forall|j: int| 0 <= j < r.len() && j != k implies #[trigger] reg_pair(r[j]) != (t, e) by {
                assert(r[j] == regs[j]);
            }
            assert forall|i: int, j: int| 0 <= i < j < r.len() implies reg_pair(#[trigger] r[i]) != reg_pair(#[trigger] r[j]) by {
                if j == k {
                    assert(r[i] == regs[i]);
                } else {
                    assert(r[i] == regs[i] && r[j] == regs[j]);
                }
            }
            assert(reg_pair(r[k]) == (t, e));
        }
    }
}

/// Dropping registrations, as waking and timer expiry do, keeps them free
/// of repeats.
pub proof fn lemma_filter_distinct(regs: Seq<EventRegistration>, keep: spec_fn(EventRegistration) -> bool)
    requires
        pairs_distinct(regs),
    ensures
        pairs_distinct(regs.filter(keep)),
    decreases regs.len(),
{
    broadcast use vstd::seq_lib::group_seq_properties;
    if regs.len() > 0 {
        let p = regs.drop_last();
        let x = regs.last();
        assert(regs =~= p.push(x));
        assert(pairs_distinct(p)) by {
            assert forall|i: int, j: int| 0 <= i < j < p.len() implies reg_pair(#[trigger] p[i]) != reg_pair(#[trigger] p[j]) by {
                assert(p[i] == regs[i] && p[j] == regs[j]);
            }
        }
        lemma_filter_distinct(p, keep);
        p.lemma_filter_push(x, keep);
        let fp = p.filter(keep);
        if keep(x) {
            let f = fp.push(x);
            assert forall|i: int, j: int| 0 <= i < j < f.len() implies reg_pair(#[trigger] f[i]) != reg_pair(#[trigger] f[j]) by {
                if j == fp.len() {
                    assert(f[i] == fp[i]);
                    assert(fp.contains(fp[i]));
                    p.lemma_filter_contains_rev(keep, fp[i]);
                    let m = choose|m: int| 0 <= m < p.len() && p[m] == fp[i];
                    assert(regs[m] == p[m] && regs[regs.len() - 1] == x);
                    assert(reg_pair(regs[m]) != reg_pair(regs[regs.len() - 1]));
                } else {
                    assert(f[i] == fp[i] && f[j] == fp[j]);
                }
            }
        }
    } else {
        assert(regs.filter(keep) =~= regs);
    }
}

/// The registrations after thread `t` registers, in order, for each event
/// present in `evs`.
pub open spec fn register_all(regs: Seq<EventRegistration>, t: usize, evs: Seq<Option<AsyncEvent>>) -> Seq<EventRegistration>
    decreases evs.len(),
{
    if evs.len() == 0 {
        regs
    } else {
        let r = register_all(regs, t, evs.drop_last());
        match evs.last() {
            Some(e) => registered_one(r, t, e),
            None => r,
        }
    }
}

/// Registering more waits of thread `t` does not change what is left once
/// all of `t`'s registrations are dropped.
pub proof fn lemma_register_all_then_drop(regs: Seq<EventRegistration>, t: usize, evs: Seq<Option<AsyncEvent>>)
    ensures
        register_all(regs, t, evs).filter(|r: EventRegistration| r.thread_idx != t) == regs.filter(|r: EventRegistration| r.thread_idx != t),
    decreases evs.len(),
{
    if evs.len() > 0 {
        lemma_register_all_then_drop(regs, t, evs.drop_last());
        let r = register_all(regs, t, evs.drop_last());
        match evs.last() {
            Some(e) => {
                if !(t >= MAX_THREADS || exists|j: int| 0 <= j < r.len() && #[trigger] reg_pair(r[j]) == (t, e)) {
                    r.lemma_filter_push(EventRegistration { thread_idx: t, event: e }, |x: EventRegistration| x.thread_idx != t);
                }
            },
            None => {},
        }
    }
}

/// The same for one registration.
pub proof fn lemma_register_one_then_drop(regs: Seq<EventRegistration>, t: usize, e: AsyncEvent)
    ensures
        registered_one(regs, t, e).filter(|r: EventRegistration| r.thread_idx != t) == regs.filter(|r: EventRegistration| r.thread_idx != t),
{
    if !(t >= MAX_THREADS || exists|j: int| 0 <= j < regs.len() && #[trigger] reg_pair(regs[j]) == (t, e)) {
        regs.lemma_filter_push(EventRegistration { thread_idx: t, event: e }, |x: EventRegistration| x.thread_idx != t);
    }
}

impl EventManager {
    /// Every registration names a thread slot.
    pub open spec fn wf(&self) -> bool {
        forall|i: int| 0 <= i < self.registrations@.len() ==> #[trigger] self.registrations@[i].thread_idx < MAX_THREADS
    }

    /// No registrations and nothing pending.
    pub fn new() -> (em: EventManager)
        ensures
            em.wf(),
            em.registrations@.len() == 0,
            em.pending@.len() == 0,
    {
        EventManager { registrations: Vec::new(), pending: Vec::new() }
    }

    /// Registers thread `thread_idx` as waiting for `event`, unless it is not
    /// a thread slot or already registered for it.
    pub fn register(&mut self, thread_idx: usize, event: AsyncEvent)
        requires
            old(self).wf(),
        ensures
            final(self).wf(),
            final(self).pending@ == old(self).pending@,
            final(self).registrations@ == registered_one(old(self).registrations@, thread_idx, event),
    {
        if thread_idx >= MAX_THREADS {
            return;
        }
        let mut i: usize = 0;
        while i < self.registrations.len()
            invariant
                self.registrations@ == old(self).registrations@,
                old(self).wf(),
                self.pending@ == old(self).pending@,
                i <= self.registrations@.len(),
                forall|j: int| 0 <= j < i ==> #[trigger] reg_pair(self.registrations@[j]) != (thread_idx, event),
            decreases self.registrations@.len() - i,
        {
            let reg = self.registrations[i];
            if reg.thread_idx == thread_idx && reg.event == event {
                assert(reg_pair(old(self).registrations@[i as int]) == (thread_idx, event));
                return;
            }
            i = i + 1;
        }
        self.registrations.push(EventRegistration { thread_idx, event });
    }

    /// Consumes the first pending signal of `event` for `thread_idx`, if any,
    /// and says whether there was one.
    pub fn check_pending(&mut self, thread_idx: usize, event: AsyncEvent) -> (found: bool)
        ensures
            final(self).registrations@ == old(self).registrations@,
            found == exists|j: int| 0 <= j < old(self).pending@.len() && #[trigger] pending_pair(old(self).pending@[j]) == (thread_idx, event),
            found ==> exists|k: int|
                0 <= k < old(self).pending@.len()
                    && pending_pair(#[trigger] old(self).pending@[k]) == (thread_idx, event)
                    && (forall|j: int| 0 <= j < k ==> pending_pair(#[trigger] old(self).pending@[j]) != (thread_idx, event))
                    && final(self).pending@ == old(self).pending@.remove(k),
            !found ==> final(self).pending@ == old(self).pending@,
    {
        let mut i: usize = 0;
        while i < self.pending.len()
            invariant
                self.pending@ == old(self).pending@,
                self.registrations@ == old(self).registrations@,
                i <= self.pending@.len(),
                forall|j: int| 0 <= j < i ==> pending_pair(#[trigger] self.pending@[j]) != (thread_idx, event),
            decreases self.pending@.len() - i,
        {
            let p = self.pending[i];
            if p.thread_idx == thread_idx && p.event == event {
                assert(pending_pair(old(self).pending@[i as int]) == (thread_idx, event));
                self.pending.remove(i);
                return true;
            }
            i = i + 1;
        }
        false
    }

    /// Wakes every thread that holds an expired timer at `current_ticks` (if
    /// it waits for an event) and drops all registrations of those threads.
    pub fn check_timers(&mut self, tm: &mut TaskManager, current_ticks: u64)
        requires
            old(self).wf(),
            old(tm).wf(),
        ensures
            final(self).wf(),
            final(tm).wf(),
            final(tm).current_task == old(tm).current_task,
            final(tm).thread_count == old(tm).thread_count,
            final(self).pending@ == old(self).pending@,
            final(self).registrations@ == old(self).registrations@.filter(
                |r: EventRegistration| !has_expired_timer(old(self).registrations@, r.thread_idx, current_ticks),
            ),
            forall|t: int| 0 <= t < MAX_THREADS ==> #[trigger] final(tm).tasks@[t] == (if has_expired_timer(
                old(self).registrations@,
                t as usize,
                current_ticks,
            ) {
                wake(old(tm).tasks@[t])
            } else {
                old(tm).tasks@[t]
            }),
    {
        let ghost regs = self.registrations@;
        // Which threads hold an expired timer.
        let mut hit: Vec<bool> = Vec::new();
        let mut t: usize = 0;
        while t < MAX_THREADS
            invariant
                t <= MAX_THREADS,
                hit@.len() == t,
                forall|j: int| 0 <= j < t ==> #[trigger] hit@[j] == false,
            decreases MAX_THREADS - t,
        {
            hit.push(false);
            t = t + 1;
        }
        let mut i: usize = 0;
        while i < self.registrations.len()
            invariant
                self.registrations@ == regs,
                self.wf(),
                hit@.len() == MAX_THREADS,
                i <= regs.len(),
                forall|j: int| 0 <= j < MAX_THREADS ==> #[trigger] hit@[j] == exists|k: int|
                    0 <= k < i && #[trigger] regs[k].thread_idx == j && is_expired(regs[k], current_ticks),
            decreases regs.len() - i,
        {
            let r = self.registrations[i];
            let expired = match r.event {
                AsyncEvent::Timer(target) => current_ticks >= target,
                _ => false,
            };
            if expired {
                hit.set(r.thread_idx, true);
            }
            i = i + 1;
            assert forall|j: int| 0 <= j < MAX_THREADS implies #[trigger] hit@[j] == exists|k: int|
                0 <= k < i && #[trigger] regs[k].thread_idx == j && is_expired(regs[k], current_ticks) by {
                if regs[i - 1].thread_idx == j && is_expired(regs[i - 1], current_ticks) {
                    assert(regs[i - 1].thread_idx == j);
                }
            }
        }
        assert forall|j: int| 0 <= j < MAX_THREADS implies #[trigger] hit@[j] == has_expired_timer(regs, j as usize, current_ticks) by {
            if hit@[j] {
                let k = choose|k: int| 0 <= k < regs.len() && #[trigger] regs[k].thread_idx == j && is_expired(regs[k], current_ticks);
                assert(regs[k].thread_idx == j as usize);
            }
            if has_expired_timer(regs, j as usize, current_ticks) {
                let k = choose|k: int| 0 <= k < regs.len() && #[trigger] regs[k].thread_idx == j as usize && is_expired(regs[k], current_ticks);
                assert(regs[k].thread_idx == j);
            }
        }
        // Wake them.
        let mut t: usize = 0;
        while t < MAX_THREADS
            invariant
                tm.tasks@.len() == MAX_THREADS,
                tm.current_task == old(tm).current_task,
                tm.thread_count == old(tm).thread_count,
                -1 <= tm.current_task < MAX_THREADS,
                hit@.len() == MAX_THREADS,
                t <= MAX_THREADS,
                forall|j: int| 0 <= j < MAX_THREADS ==> #[trigger] hit@[j] == has_expired_timer(regs, j as usize, current_ticks),
                forall|j: int| 0 <= j < t ==> #[trigger] tm.tasks@[j] == (if hit@[j] {
                    wake(old(tm).tasks@[j])
                } else {
                    old(tm).tasks@[j]
                }),
                forall|j: int| t <= j < MAX_THREADS ==> #[trigger] tm.tasks@[j] == old(tm).tasks@[j],
            decreases MAX_THREADS - t,
        {
            if hit[t] {
                wake_slot(tm, t);
            }
            t = t + 1;
        }
        // Drop their registrations, keeping the order of the rest.
        let mut kept: Vec<EventRegistration> = Vec::new();
        let mut i: usize = 0;
        while i < self.registrations.len()
            invariant
                self.registrations@ == regs,
                forall|k: int| 0 <= k < regs.len() ==> #[trigger] regs[k].thread_idx < MAX_THREADS,
                hit@.len() == MAX_THREADS,
                forall|j: int| 0 <= j < MAX_THREADS ==> #[trigger] hit@[j] == has_expired_timer(regs, j as usize, current_ticks),
                i <= regs.len(),
                kept@ == regs.take(i as int).filter(|r: EventRegistration| !has_expired_timer(regs, r.thread_idx, current_ticks)),
            decreases regs.len() - i,
        {
            let r = self.registrations[i];
            proof {
                regs.take(i as int).lemma_filter_push(r, |r: EventRegistration| !has_expired_timer(regs, r.thread_idx, current_ticks));
                assert(regs.take(i + 1) =~= regs.take(i as int).push(r));
            }
            if !hit[r.thread_idx] {
                kept.push(r);
            }
            i = i + 1;
        }
        assert(regs.take(i as int) =~= regs);
        proof {
            lemma_filter_keeps_slots(regs, |r: EventRegistration| !has_expired_timer(regs, r.thread_idx, current_ticks));
        }
        self.registrations = kept;
    }

    /// Does nothing: signalling a list of threads goes through `signal_with_latch`.
    pub fn signal_tids(&mut self, tids: &[u64])
        ensures
            final(self).registrations@ == old(self).registrations@,
            final(self).pending@ == old(self).pending@,
    {
        let mut i: usize = 0;
        while i < tids.len()
            invariant
                i <= tids@.len(),
                self.registrations@ == old(self).registrations@,
                self.pending@ == old(self).pending@,
            decreases tids@.len() - i,
        {
            i = i + 1;
        }
    }

    /// Delivers `event`: every registration for it is consumed, and the
    /// threads among them that wait in `WaitingForEvent` become ready and lose
    /// all their other registrations. When nobody was woken and the event is
    /// `Generic(tid)` for a thread slot, it is latched as pending for that
    /// thread (once).
    pub fn signal_with_latch(&mut self, tm: &mut TaskManager, event: AsyncEvent)
        requires
            old(self).wf(),
            old(tm).wf(),
        ensures
            final(self).wf(),
            final(tm).wf(),
            final(tm).current_task == old(tm).current_task,
            final(tm).thread_count == old(tm).thread_count,
            forall|t: int| 0 <= t < MAX_THREADS ==> #[trigger] final(tm).tasks@[t] == (if woken_by(
                old(self).registrations@,
                old(tm).tasks@,
                event,
                t as usize,
            ) {
                wake(old(tm).tasks@[t])
            } else {
                old(tm).tasks@[t]
            }),
            final(self).registrations@ == old(self).registrations@.filter(
                |r: EventRegistration| r.event != event && !woken_by(old(self).registrations@, old(tm).tasks@, event, r.thread_idx),
            ),
            final(self).pending@ == latched(old(self).registrations@, old(tm).tasks@, old(self).pending@, event),
    {
        let ghost regs = self.registrations@;
        let ghost tasks0 = tm.tasks@;
        // Which threads this event wakes.
        let mut hit: Vec<bool> = Vec::new();
        let mut t: usize = 0;
        while t < MAX_THREADS
            invariant
                t <= MAX_THREADS,
                hit@.len() == t,
                forall|j: int| 0 <= j < t ==> #[trigger] hit@[j] == false,
            decreases MAX_THREADS - t,
        {
            hit.push(false);
            t = t + 1;
        }
        let mut any_woken = false;
        let mut i: usize = 0;
        while i < self.registrations.len()
            invariant
                self.registrations@ == regs,
                self.wf(),
                tm.tasks@ == tasks0,
                tasks0.len() == MAX_THREADS,
                hit@.len() == MAX_THREADS,
                i <= regs.len(),
                forall|j: int| 0 <= j < MAX_THREADS ==> #[trigger] hit@[j] == (tasks0[j] is Some
                    && tasks0[j]->0.state == ThreadState::WaitingForEvent && exists|k: int|
                    0 <= k < i && #[trigger] regs[k].thread_idx == j && regs[k].event == event),
                any_woken == exists|j: int| 0 <= j < MAX_THREADS && #[trigger] hit@[j],
            decreases regs.len() - i,
        {
            let r = self.registrations[i];
            if r.event == event {
                let waiting = match &tm.tasks[r.thread_idx] {
                    Some(th) => th.state == ThreadState::WaitingForEvent,
                    None => false,
                };
                if waiting {
                    hit.set(r.thread_idx, true);
                    any_woken = true;
                    assert(hit@[r.thread_idx as int]);
                }
            }
            i = i + 1;
            assert forall|j: int| 0 <= j < MAX_THREADS implies #[trigger] hit@[j] == (tasks0[j] is Some
                && tasks0[j]->0.state == ThreadState::WaitingForEvent && exists|k: int|
                0 <= k < i && #[trigger] regs[k].thread_idx == j && regs[k].event == event) by {
                if regs[i - 1].thread_idx == j && regs[i - 1].event == event {
                    assert(regs[i - 1].thread_idx == j);
                }
            }
        }
        assert forall|j: int| 0 <= j < MAX_THREADS implies #[trigger] hit@[j] == woken_by(regs, tasks0, event, j as usize) by {
            if exists|k: int| 0 <= k < regs.len() && #[trigger] regs[k].thread_idx == j && regs[k].event == event {
                let k = choose|k: int| 0 <= k < regs.len() && #[trigger] regs[k].thread_idx == j && regs[k].event == event;
                assert(regs[k].thread_idx == j as usize);
            }
            if exists|k: int| 0 <= k < regs.len() && #[trigger] regs[k].thread_idx == j as usize && regs[k].event == event {
                let k = choose|k: int| 0 <= k < regs.len() && #[trigger] regs[k].thread_idx == j as usize && regs[k].event == event;
                assert(regs[k].thread_idx == j);
            }
        }
        // Wake them.
        let mut t: usize = 0;
        while t < MAX_THREADS
            invariant
                tm.tasks@.len() == MAX_THREADS,
                tm.current_task == old(tm).current_task,
                tm.thread_count == old(tm).thread_count,
                -1 <= tm.current_task < MAX_THREADS,
                hit@.len() == MAX_THREADS,
                t <= MAX_THREADS,
                forall|j: int| 0 <= j < MAX_THREADS ==> #[trigger] hit@[j] == woken_by(regs, tasks0, event, j as usize),
                forall|j: int| 0 <= j < t ==> #[trigger] tm.tasks@[j] == (if hit@[j] {
                    wake(tasks0[j])
                } else {
                    tasks0[j]
                }),
                forall|j: int| t <= j < MAX_THREADS ==> #[trigger] tm.tasks@[j] == tasks0[j],
            decreases MAX_THREADS - t,
        {
            if hit[t] {
                wake_slot(tm, t);
            }
            t = t + 1;
        }
        // Drop the consumed registrations and those of the woken threads.
        let mut kept: Vec<EventRegistration> = Vec::new();
        let mut i: usize = 0;
        while i < self.registrations.len()
            invariant
                self.registrations@ == regs,
                forall|k: int| 0 <= k < regs.len() ==> #[trigger] regs[k].thread_idx < MAX_THREADS,
                hit@.len() == MAX_THREADS,
                forall|j: int| 0 <= j < MAX_THREADS ==> #[trigger] hit@[j] == woken_by(regs, tasks0, event, j as usize),
                i <= regs.len(),
                kept@ == regs.take(i as int).filter(|r: EventRegistration| r.event != event && !woken_by(regs, tasks0, event, r.thread_idx)),
            decreases regs.len() - i,
        {
            let r = self.registrations[i];
            proof {
                regs.take(i as int).lemma_filter_push(r, |r: EventRegistration| r.event != event && !woken_by(regs, tasks0, event, r.thread_idx));
                assert(regs.take(i + 1) =~= regs.take(i as int).push(r));
            }
            if r.event != event && !hit[r.thread_idx] {
                kept.push(r);
            }
            i = i + 1;
        }
        assert(regs.take(i as int) =~= regs);
        proof {
            lemma_filter_keeps_slots(regs, |r: EventRegistration| r.event != event && !woken_by(regs, tasks0, event, r.thread_idx));
        }
        self.registrations = kept;
        // Latch the signal when nobody took it.
        assert(any_woken == exists|j: int| 0 <= j < MAX_THREADS && #[trigger] woken_by(regs, tasks0, event, j as usize)) by {
            if any_woken {
                let j = choose|j: int| 0 <= j < MAX_THREADS && #[trigger] hit@[j];
                assert(woken_by(regs, tasks0, event, j as usize));
            }
            if exists|j: int| 0 <= j < MAX_THREADS && #[trigger] woken_by(regs, tasks0, event, j as usize) {
                let j = choose|j: int| 0 <= j < MAX_THREADS && #[trigger] woken_by(regs, tasks0, event, j as usize);
                assert(hit@[j]);
            }
        }
        if !any_woken {
            match event {
                AsyncEvent::Generic(tid) => {
                    let target = tid as usize;
                    if target < MAX_THREADS {
                        let mut exists = false;
                        let mut k: usize = 0;
                        while k < self.pending.len()
                            invariant
                                self.pending@ == old(self).pending@,
                                k <= self.pending@.len(),
                                exists == (exists|j: int| 0 <= j < k && #[trigger] pending_pair(self.pending@[j]) == (target, event)),
                            decreases self.pending@.len() - k,
                        {
                            let p = self.pending[k];
                            if p.thread_idx == target && p.event == event {
                                exists = true;
                            }
                            k = k + 1;
                            assert(exists == (exists|j: int| 0 <= j < k && #[trigger] pending_pair(self.pending@[j]) == (target, event))) by {
                                if p.thread_idx == target && p.event == event {
                                    assert(pending_pair(self.pending@[k - 1]) == (target, event));
                                }
                            }
                        }
                        if !exists {
                            self.pending.push(PendingEvent { thread_idx: target, event });
                        }
                    }
                },
                _ => {},
            }
        }
    }

    /// Drops every registration and pending signal of thread `thread_idx`.
    pub fn unregister_thread(&mut self, thread_idx: usize)
        requires
            old(self).wf(),
        ensures
            final(self).wf(),
            final(self).registrations@ == old(self).registrations@.filter(|r: EventRegistration| r.thread_idx != thread_idx),
            final(self).pending@ == old(self).pending@.filter(|p: PendingEvent| p.thread_idx != thread_idx),
    {
        let ghost regs = self.registrations@;
        let mut kept: Vec<EventRegistration> = Vec::new();
        let mut i: usize = 0;
        while i < self.registrations.len()
            invariant
                self.registrations@ == regs,
                i <= regs.len(),
                kept@ == regs.take(i as int).filter(|r: EventRegistration| r.thread_idx != thread_idx),
            decreases regs.len() - i,
        {
            let r = self.registrations[i];
            proof {
                regs.take(i as int).lemma_filter_push(r, |r: EventRegistration| r.thread_idx != thread_idx);
                assert(regs.take(i + 1) =~= regs.take(i as int).push(r));
            }
            if r.thread_idx != thread_idx {
                kept.push(r);
            }
            i = i + 1;
        }
        assert(regs.take(i as int) =~= regs);
        proof {
            lemma_filter_keeps_slots(regs, |r: EventRegistration| r.thread_idx != thread_idx);
        }
        self.registrations = kept;
        let ghost pend = self.pending@;
        let mut kept_p: Vec<PendingEvent> = Vec::new();
        let mut i: usize = 0;
        while i < self.pending.len()
            invariant
                self.pending@ == pend,
                i <= pend.len(),
                kept_p@ == pend.take(i as int).filter(|p: PendingEvent| p.thread_idx != thread_idx),
            decreases pend.len() - i,
        {
            let p = self.pending[i];
            proof {
                pend.take(i as int).lemma_filter_push(p, |p: PendingEvent| p.thread_idx != thread_idx);
                assert(pend.take(i + 1) =~= pend.take(i as int).push(p));
            }
            if p.thread_idx != thread_idx {
                kept_p.push(p);
            }
            i = i + 1;
        }
        assert(pend.take(i as int) =~= pend);
        self.pending = kept_p;
    }
}

/// The pending list after delivering `event`: unchanged if someone was
/// woken; otherwise a `Generic(tid)` event for a thread slot is added for
/// that thread unless already pending.
pub open spec fn latched(
    regs: Seq<EventRegistration>,
    tasks: Seq<Option<Thread>>,
    pending: Seq<PendingEvent>,
    event: AsyncEvent,
) -> Seq<PendingEvent> {
    if exists|j: int| 0 <= j < MAX_THREADS && #[trigger] woken_by(regs, tasks, event, j as usize) {
        pending
    } else {
        match event {
            AsyncEvent::Generic(tid) => if (tid as usize) < MAX_THREADS && !(exists|j: int|
                0 <= j < pending.len() && #[trigger] pending_pair(pending[j]) == (tid as usize, event)) {
                pending.push(PendingEvent { thread_idx: tid as usize, event })
            } else {
                pending
            },
            _ => pending,
        }
    }
}

proof fn lemma_filter_keeps_slots(regs: Seq<EventRegistration>, pred: spec_fn(EventRegistration) -> bool)
    requires
        forall|k: int| 0 <= k < regs.len() ==> #[trigger] regs[k].thread_idx < MAX_THREADS,
    ensures
        forall|k: int| 0 <= k < regs.filter(pred).len() ==> #[trigger] regs.filter(pred)[k].thread_idx < MAX_THREADS,
{
    broadcast use vstd::seq_lib::group_filter_ensures;
    assert forall|k: int| 0 <= k < regs.filter(pred).len() implies #[trigger] regs.filter(pred)[k].thread_idx < MAX_THREADS by {
        let x = regs.filter(pred)[k];
        assert(regs.filter(pred).contains(x));
        regs.lemma_filter_contains_rev(pred, x);
        let j = choose|j: int| 0 <= j < regs.len() && regs[j] == x;
        assert(regs[j].thread_idx < MAX_THREADS);
    }
}

/// Makes slot `t` ready if it waits for an event.
fn wake_slot(tm: &mut TaskManager, t: usize)
    requires
        old(tm).tasks@.len() == MAX_THREADS,
        t < MAX_THREADS,
    ensures
        final(tm).tasks@ == old(tm).tasks@.update(t as int, wake(old(tm).tasks@[t as int])),
        final(tm).current_task == old(tm).current_task,
        final(tm).thread_count == old(tm).thread_count,
{
    let slot = tm.tasks.remove(t);
    let updated = match slot {
        Some(th) => {
            if th.state == ThreadState::WaitingForEvent {
                Some(Thread { state: ThreadState::Ready, ..th })
            } else {
                Some(th)
            }
        },
        None => None,
    };
    tm.tasks.insert(t, updated);
    assert(tm.tasks@ =~= old(tm).tasks@.update(t as int, wake(old(tm).tasks@[t as int])));
}

/// A signal that reaches a waiting thread leaves nothing pending; one that
/// finds nobody waiting on a `Generic` event for a thread slot is latched and
/// then consumed by that thread's next `check_pending`.
pub proof fn lemma_latch_then_consume(
    regs: Seq<EventRegistration>,
    tasks: Seq<Option<Thread>>,
    pending: Seq<PendingEvent>,
    tid: u64,
)
    requires
        (tid as usize) < MAX_THREADS,
        !exists|j: int| 0 <= j < MAX_THREADS && #[trigger] woken_by(regs, tasks, AsyncEvent::Generic(tid), j as usize),
    ensures
        exists|j: int| 0 <= j < latched(regs, tasks, pending, AsyncEvent::Generic(tid)).len()
            && #[trigger] pending_pair(latched(regs, tasks, pending, AsyncEvent::Generic(tid))[j]) == (tid as usize, AsyncEvent::Generic(tid)),
{
    let ev = AsyncEvent::Generic(tid);
    let l = latched(regs, tasks, pending, ev);
    if exists|j: int| 0 <= j < pending.len() && #[trigger] pending_pair(pending[j]) == (tid as usize, ev) {
        let j = choose|j: int| 0 <= j < pending.len() && #[trigger] pending_pair(pending[j]) == (tid as usize, ev);
        assert(pending_pair(l[j]) == (tid as usize, ev));
    } else {
        assert(pending_pair(l[pending.len() as int]) == (tid as usize, ev));
    }
}

} // verus!

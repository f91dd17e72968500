//! Debouncing of filesystem events, one pending timer per path.
//!
//! A change to a path starts a quiet window for it; further changes during
//! the window start it again. Once a window passes with no change, the path
//! is due, once, and its pipelines run. The caller feeds in the events and
//! the clock and runs what falls due.
use vstd::prelude::*;

verus! {

/// How long a path must stay quiet, in milliseconds, before its pipelines run.
pub const QUIET_MS: u64 = 5000;

/// The kinds of filesystem event that matter here.
#[derive(Debug, Clone, Copy, PartialEq, Eq, Structural)]
pub enum EventKind {
    Create,
    Write,
    Remove,
    /// Anything else: metadata, renames. Never runs a pipeline.
    Other,
}

/// What an event did.
#[derive(Debug, Clone, Copy, PartialEq, Eq, Structural)]
pub enum Notice {
    /// A change to a path with no pending timer: a timer was started.
    Scheduled,
    /// A change to a path with a pending timer: the timer was started again.
    Extended,
    /// The path was removed: there is nothing to run it on, and a pending
    /// timer for it was dropped.
    Removed,
    /// Nothing to do.
    Ignored,
}

/// A path waiting for its quiet window to pass.
#[derive(Debug)]
pub struct Pending {
    pub path: String,
    pub deadline: u64,
}

/// A pending timer: the path and the time it falls due.
pub type Timer = (Seq<char>, u64);

/// The value of a [`Debouncer`].
pub ghost struct Timers {
    pub window: u64,
    pub pending: Seq<Timer>,
}

/// No two timers are for one path.
pub open spec fn distinct_paths(pending: Seq<Timer>) -> bool {
    forall|i: int, j: int| 0 <= i < j < pending.len() ==> pending[i].0 != pending[j].0
}

/// Some timer is for `path`.
pub open spec fn has_timer(pending: Seq<Timer>, path: Seq<char>) -> bool {
    exists|i: int| 0 <= i < pending.len() && pending[i].0 == path
}

/// The position of the timer for `path`; meaningful where there is one.
pub open spec fn timer_position(pending: Seq<Timer>, path: Seq<char>) -> int {
    choose|i: int| 0 <= i < pending.len() && pending[i].0 == path
}

/// The end of a window of `window` that starts at `now`, capped at the
/// largest time.
pub open spec fn deadline_after(now: u64, window: u64) -> u64 {
    if now + window > u64::MAX {
        u64::MAX
    } else {
        (now + window) as u64
    }
}

/// Whether an event of this kind changes the path's contents.
pub open spec fn is_change(kind: EventKind) -> bool {
    kind == EventKind::Create || kind == EventKind::Write
}

/// What an event of `kind` on `path` does to the timers.
pub open spec fn noticed(s: Timers, kind: EventKind, path: Seq<char>, now: u64) -> Timers {
    if is_change(kind) {
        let t = (path, deadline_after(now, s.window));
        if has_timer(s.pending, path) {
            Timers { window: s.window, pending: s.pending.update(timer_position(s.pending, path), t) }
        } else {
            Timers { window: s.window, pending: s.pending.push(t) }
        }
    } else if kind == EventKind::Remove && has_timer(s.pending, path) {
        Timers { window: s.window, pending: s.pending.remove(timer_position(s.pending, path)) }
    } else {
        s
    }
}

/// What an event of `kind` on `path` is reported as.
pub open spec fn notice_of(s: Timers, kind: EventKind, path: Seq<char>) -> Notice {
    if is_change(kind) {
        if has_timer(s.pending, path) {
            Notice::Extended
        } else {
            Notice::Scheduled
        }
    } else if kind == EventKind::Remove {
        Notice::Removed
    } else {
        Notice::Ignored
    }
}

/// Whether a timer has fallen due at `now`.
pub open spec fn due_at(now: u64) -> spec_fn(Timer) -> bool {
    |t: Timer| t.1 <= now
}

/// Whether a timer is still waiting at `now`.
pub open spec fn waiting_at(now: u64) -> spec_fn(Timer) -> bool {
    |t: Timer| t.1 > now
}

/// The paths of these timers.
pub open spec fn timer_paths(pending: Seq<Timer>) -> Seq<Seq<char>> {
    pending.map_values(|t: Timer| t.0)
}

/// The timers after a change to `path` at each of `times` in turn.
pub open spec fn changes_applied(s: Timers, path: Seq<char>, times: Seq<u64>) -> Timers
    decreases times.len(),
{
    if times.len() == 0 {
        s
    } else {
        noticed(changes_applied(s, path, times.drop_last()), EventKind::Write, path, times.last())
    }
}

/// The timers of pending paths, at most one per path.
pub struct Debouncer {
    window: u64,
    pending: Vec<Pending>,
}

impl View for Debouncer {
    type V = Timers;

    closed spec fn view(&self) -> Timers {
        Timers {
            window: self.window,
            pending: self.pending@.map_values(|p: Pending| (p.path@, p.deadline)),
        }
    }
}

/// Keeping some of a set of timers keeps them for distinct paths.
#[verifier::spinoff_prover]
pub proof fn lemma_filter_distinct(pending: Seq<Timer>, keep: spec_fn(Timer) -> bool)
    requires
        distinct_paths(pending),
    ensures
        distinct_paths(pending.filter(keep)),
        forall|t: Timer| pending.filter(keep).contains(t) ==> pending.contains(t),
    decreases pending.len(),
{
    if pending.len() > 0 {
        let init = pending.drop_last();
        assert(distinct_paths(init));
        lemma_filter_distinct(init, keep);
        let f = init.filter(keep);
        reveal(Seq::filter);
        assert(pending.filter(keep) == (if keep(pending.last()) {
            f.push(pending.last())
        } else {
            f
        }));
        assert forall|t: Timer| pending.filter(keep).contains(t) implies pending.contains(t) by {
            if f.contains(t) {
                assert(init.contains(t));
                let k = choose|k: int| 0 <= k < init.len() && init[k] == t;
                assert(pending[k] == t);
            } else {
                let g = pending.filter(keep);
                let k = choose|k: int| 0 <= k < g.len() && g[k] == t;
                if k < f.len() {
                    assert(f[k] == t);
                    assert(f.contains(t));
                }
                assert(t == pending.last());
                assert(pending[pending.len() - 1] == t);
            }
        }
        if keep(pending.last()) {
            assert forall|i: int| 0 <= i < f.len() implies f[i].0 != pending.last().0 by {
                assert(f.contains(f[i]));
                assert(init.contains(f[i]));
                let k = choose|k: int| 0 <= k < init.len() && init[k] == f[i];
                assert(pending[k] == f[i]);
            }
        }
    }
}

/// The time the timer for `path` falls due; meaningful where there is one.
pub open spec fn deadline_of(pending: Seq<Timer>, path: Seq<char>) -> u64 {
    pending[timer_position(pending, path)].1
}

/// `x` occurs exactly once in `s`.
pub open spec fn occurs_once(s: Seq<Seq<char>>, x: Seq<char>) -> bool {
    exists|i: int|
        0 <= i < s.len() && s[i] == x && forall|j: int| 0 <= j < s.len() && s[j] == x ==> j == i
}

/// Where paths are distinct, the timer at `i` is the one for its path.
pub proof fn lemma_timer_at(pending: Seq<Timer>, i: int)
    requires
        distinct_paths(pending),
        0 <= i < pending.len(),
    ensures
        has_timer(pending, pending[i].0),
        timer_position(pending, pending[i].0) == i,
{
    let j = timer_position(pending, pending[i].0);
    assert(pending[j].0 == pending[i].0);
}

/// A burst of changes to `path` leaves one timer for it, due a window after
/// the last change; the timers of other paths are not touched.
#[verifier::spinoff_prover]
pub proof fn lemma_burst_one_timer(s: Timers, path: Seq<char>, times: Seq<u64>)
    requires
        distinct_paths(s.pending),
    ensures
        distinct_paths(changes_applied(s, path, times).pending),
        changes_applied(s, path, times).window == s.window,
        times.len() > 0 ==> has_timer(changes_applied(s, path, times).pending, path) && deadline_of(
            changes_applied(s, path, times).pending,
            path,
        ) == deadline_after(times.last(), s.window),
        forall|q: Seq<char>|
            q != path ==> (has_timer(changes_applied(s, path, times).pending, q) == has_timer(
                s.pending,
                q,
            ) && (has_timer(s.pending, q) ==> deadline_of(
                changes_applied(s, path, times).pending,
                q,
            ) == deadline_of(s.pending, q))),
    decreases times.len(),
{
    if times.len() > 0 {
        let init = times.drop_last();
        lemma_burst_one_timer(s, path, init);
        let prev = changes_applied(s, path, init);
        let cur = changes_applied(s, path, times);
        let t = (path, deadline_after(times.last(), s.window));
        if has_timer(prev.pending, path) {
            let pos = timer_position(prev.pending, path);
            assert(cur.pending == prev.pending.update(pos, t));
            assert forall|i: int, j: int| 0 <= i < j < cur.pending.len() implies cur.pending[i].0
                != cur.pending[j].0 by {
                assert(prev.pending[pos].0 == path);
            }
            lemma_timer_at(cur.pending, pos);
            assert forall|q: Seq<char>| q != path && has_timer(prev.pending, q) implies has_timer(
                cur.pending,
                q,
            ) && deadline_of(cur.pending, q) == deadline_of(prev.pending, q) by {
                let i = timer_position(prev.pending, q);
                assert(prev.pending[i].0 == q);
                assert(i != pos);
                assert(cur.pending[i] == prev.pending[i]);
                lemma_timer_at(cur.pending, i);
            }
            assert forall|q: Seq<char>| q != path && has_timer(cur.pending, q) implies has_timer(
                prev.pending,
                q,
            ) by {
                let i = choose|i: int| 0 <= i < cur.pending.len() && cur.pending[i].0 == q;
                assert(i != pos);
                assert(cur.pending[i] == prev.pending[i]);
            }
        } else {
            assert(cur.pending == prev.pending.push(t));
            assert forall|i: int, j: int| 0 <= i < j < cur.pending.len() implies cur.pending[i].0
                != cur.pending[j].0 by {
                if j == prev.pending.len() {
                    assert(cur.pending[i] == prev.pending[i]);
                }
            }
            lemma_timer_at(cur.pending, prev.pending.len() as int);
            assert forall|q: Seq<char>| q != path && has_timer(prev.pending, q) implies has_timer(
                cur.pending,
                q,
            ) && deadline_of(cur.pending, q) == deadline_of(prev.pending, q) by {
                let i = timer_position(prev.pending, q);
                assert(prev.pending[i].0 == q);
                assert(cur.pending[i] == prev.pending[i]);
                lemma_timer_at(cur.pending, i);
            }
            assert forall|q: Seq<char>| q != path && has_timer(cur.pending, q) implies has_timer(
                prev.pending,
                q,
            ) by {
                let i = choose|i: int| 0 <= i < cur.pending.len() && cur.pending[i].0 == q;
                assert(cur.pending[i] == prev.pending[i]);
            }
        }
    }
}

/// However many changes to `path` come in a burst, they come to one run:
/// expiring the timers before a window has passed since the last change
/// hands nothing back for `path` and keeps its timer; expiring them after
/// hands `path` back exactly once and drops its timer.
#[verifier::spinoff_prover]
pub proof fn lemma_burst_runs_once(s: Timers, path: Seq<char>, times: Seq<u64>, now: u64)
    requires
        distinct_paths(s.pending),
        times.len() > 0,
    ensures
        now < deadline_after(times.last(), s.window) ==> !timer_paths(
            changes_applied(s, path, times).pending.filter(due_at(now)),
        ).contains(path) && has_timer(
            changes_applied(s, path, times).pending.filter(waiting_at(now)),
            path,
        ),
        now >= deadline_after(times.last(), s.window) ==> occurs_once(
            timer_paths(changes_applied(s, path, times).pending.filter(due_at(now))),
            path,
        ) && !has_timer(changes_applied(s, path, times).pending.filter(waiting_at(now)), path),
{
    lemma_burst_one_timer(s, path, times);
    let pending = changes_applied(s, path, times).pending;
    let d = deadline_after(times.last(), s.window);
    let pos = timer_position(pending, path);
    let t = pending[pos];
    assert(t.0 == path && t.1 == d);
    let due = pending.filter(due_at(now));
    let waiting = pending.filter(waiting_at(now));
    lemma_filter_distinct(pending, due_at(now));
    lemma_filter_distinct(pending, waiting_at(now));
    broadcast use vstd::seq_lib::group_filter_ensures;
    // A timer for `path` in either part is the one timer for `path`.
    assert forall|u: Timer| pending.contains(u) && u.0 == path implies u == t by {
        let i = choose|i: int| 0 <= i < pending.len() && pending[i] == u;
        lemma_timer_at(pending, i);
    }
    if now < d {
        assert(waiting.contains(t));
        let k = choose|k: int| 0 <= k < waiting.len() && waiting[k] == t;
        assert(waiting[k].0 == path);
        assert(has_timer(waiting, path));
        if timer_paths(due).contains(path) {
            let i = choose|i: int| 0 <= i < timer_paths(due).len() && timer_paths(due)[i] == path;
            assert(due[i].0 == path);
            assert(due.contains(due[i]));
            assert(pending.contains(due[i]));
            assert(due[i] == t);
            assert(due_at(now)(due[i]));
            assert(false);
        }
    } else {
        assert(due.contains(t));
        let k = choose|k: int| 0 <= k < due.len() && due[k] == t;
        assert(timer_paths(due)[k] == path);
        assert forall|j: int| 0 <= j < timer_paths(due).len() && timer_paths(due)[j] == path
            implies j == k by {
            assert(due[j].0 == path);
        }
        assert(occurs_once(timer_paths(due), path));
        if has_timer(waiting, path) {
            let i = choose|i: int| 0 <= i < waiting.len() && waiting[i].0 == path;
            assert(waiting.contains(waiting[i]));
            assert(pending.contains(waiting[i]));
            assert(waiting[i] == t);
            assert(waiting_at(now)(waiting[i]));
            assert(false);
        }
    }
}

impl Debouncer {
    /// At most one timer per path.
    pub open spec fn wf(&self) -> bool {
        distinct_paths(self@.pending)
    }

    /// No pending timers; a path runs once it has been quiet for `window`
    /// milliseconds.
    pub fn new(window: u64) -> (r: Debouncer)
        ensures
            r.wf(),
            r@.window == window,
            r@.pending.len() == 0,
    {
        let r = Debouncer { window, pending: Vec::new() };
        assert(r@.pending =~= Seq::<Timer>::empty());
        r
    }

    /// The position of the timer for `path`, if there is one.
    fn position(&self, path: &String) -> (r: Option<usize>)
        requires
            self.wf(),
        ensures
            r is None <==> !has_timer(self@.pending, path@),
            r matches Some(i) ==> i < self@.pending.len() && i == timer_position(
                self@.pending,
                path@,
            ),
    {
        let mut i: usize = 0;
        while i < self.pending.len()
            invariant
                i <= self.pending@.len(),
                distinct_paths(self@.pending),
                forall|j: int| 0 <= j < i ==> self@.pending[j].0 != path@,
            decreases self.pending@.len() - i,
        {
            if self.pending[i].path == *path {
                assert(self@.pending[i as int].0 == path@);
                let ghost p = timer_position(self@.pending, path@);
                assert(self@.pending[p].0 == path@);
                assert(p == i);
                return Some(i);
            }
            i = i + 1;
        }
        None
    }

    /// Takes in an event of `kind` on `path` at time `now`: a change starts
    /// the path's quiet window, or starts it again; a removal drops the
    /// path's timer; anything else changes nothing.
    pub fn notice(&mut self, kind: EventKind, path: &String, now: u64) -> (r: Notice)
        requires
            old(self).wf(),
        ensures
            final(self).wf(),
            r == notice_of(old(self)@, kind, path@),
            final(self)@ == noticed(old(self)@, kind, path@, now),
    {
        let ghost before = self@;
        let pos = self.position(path);
        match kind {
            EventKind::Create | EventKind::Write => {
                let deadline = now.saturating_add(self.window);
                let timer = Pending { path: path.clone(), deadline };
                match pos {
                    Some(i) => {
                        self.pending.set(i, timer);
                        assert(self@.pending =~= before.pending.update(i as int, (path@, deadline)));
                        Notice::Extended
                    },
                    None => {
                        self.pending.push(timer);
                        assert(self@.pending =~= before.pending.push((path@, deadline)));
                        Notice::Scheduled
                    },
                }
            },
            EventKind::Remove => {
                if let Some(i) = pos {
                    self.pending.remove(i);
                    assert(self@.pending =~= before.pending.remove(i as int));
                }
                Notice::Removed
            },
            EventKind::Other => Notice::Ignored,
        }
    }

    /// Takes out every timer that has fallen due at `now` and hands back its
    /// path, in the order the timers were started. The other timers stay, in
    /// their order.
    pub fn expire(&mut self, now: u64) -> (r: Vec<String>)
        requires
            old(self).wf(),
        ensures
            final(self).wf(),
            final(self)@.window == old(self)@.window,
            final(self)@.pending == old(self)@.pending.filter(waiting_at(now)),
            r@.map_values(|p: String| p@) == timer_paths(old(self)@.pending.filter(due_at(now))),
    {
        let ghost all = self@.pending;
        let mut due: Vec<String> = Vec::new();
        let mut rest: Vec<Pending> = Vec::new();
        let mut i: usize = 0;
        while i < self.pending.len()
            invariant
                i <= self.pending@.len(),
                all == self@.pending,
                due@.map_values(|p: String| p@) == timer_paths(
                    all.subrange(0, i as int).filter(due_at(now)),
                ),
                rest@.map_values(|p: Pending| (p.path@, p.deadline)) == all.subrange(
                    0,
                    i as int,
                ).filter(waiting_at(now)),
            decreases self.pending@.len() - i,
        {
            let ghost seen = all.subrange(0, i as int);
            let ghost next = all.subrange(0, i + 1);
            let ghost due_before = due@;
            let ghost rest_before = rest@;
            assert(next.drop_last() =~= seen);
            assert(next.last() == all[i as int]);
            reveal(Seq::filter);
            let path = self.pending[i].path.clone();
            let deadline = self.pending[i].deadline;
            assert(all[i as int].1 == deadline);
            assert(all[i as int].0 == path@);
            if deadline <= now {
                assert(due_at(now)(next.last()));
                assert(!waiting_at(now)(next.last()));
                assert(next.filter(waiting_at(now)) == seen.filter(waiting_at(now)));
                assert(next.filter(due_at(now)) == seen.filter(due_at(now)).push(next.last()));
                due.push(path);
                assert(due@ == due_before.push(path));
                assert(timer_paths(seen.filter(due_at(now)).push(next.last())) =~= timer_paths(
                    seen.filter(due_at(now)),
                ).push(path@));
                assert(due@.map_values(|p: String| p@) =~= timer_paths(next.filter(due_at(now))));
                assert(rest@.map_values(|p: Pending| (p.path@, p.deadline)) =~= next.filter(
                    waiting_at(now),
                ));
            } else {
                assert(!due_at(now)(next.last()));
                assert(waiting_at(now)(next.last()));
                assert(next.filter(due_at(now)) == seen.filter(due_at(now)));
                assert(next.filter(waiting_at(now)) == seen.filter(waiting_at(now)).push(
                    next.last(),
                ));
                let timer = Pending { path, deadline };
                rest.push(timer);
                assert(rest@ == rest_before.push(timer));
                assert(rest@.map_values(|p: Pending| (p.path@, p.deadline)) =~= next.filter(
                    waiting_at(now),
                ));
                assert(due@.map_values(|p: String| p@) =~= timer_paths(next.filter(due_at(now))));
            }
            i = i + 1;
        }
        assert(all.subrange(0, all.len() as int) =~= all);
        proof {
            lemma_filter_distinct(all, waiting_at(now));
        }
        self.pending = rest;
        due
    }

    /// The earliest time at which a timer falls due, if any is pending.
    pub fn next_deadline(&self) -> (r: Option<u64>)
        ensures
            r is None <==> self@.pending.len() == 0,
            r matches Some(d) ==> (exists|i: int|
                0 <= i < self@.pending.len() && self@.pending[i].1 == d) && forall|i: int|
                0 <= i < self@.pending.len() ==> d <= self@.pending[i].1,
    {
        if self.pending.len() == 0 {
            return None;
        }
        let mut best: u64 = self.pending[0].deadline;
        assert(self@.pending[0].1 == best);
        let mut i: usize = 1;
        while i < self.pending.len()
            invariant
                1 <= i <= self.pending@.len(),
                exists|k: int| 0 <= k < self@.pending.len() && self@.pending[k].1 == best,
                forall|k: int| 0 <= k < i ==> best <= self@.pending[k].1,
            decreases self.pending@.len() - i,
        {
            if self.pending[i].deadline < best {
                best = self.pending[i].deadline;
                assert(self@.pending[i as int].1 == best);
            }
            i = i + 1;
        }
        Some(best)
    }
}

} // verus!

use vstd::prelude::*;

verus! {

/// A cooperative task: `wake` is the earliest clock at which it may run.
#[derive(Debug, Clone, Copy, PartialEq, Eq, Structural)]
pub struct Task {
    pub id: u64,
    pub wake: u64,
}

/// What the host's run loop is to do next.
#[derive(Debug, Clone, Copy, PartialEq, Eq, Structural)]
pub enum Schedule {
    /// Run the task it holds next.
    Run(Task),
    /// Nothing is runnable before this clock value; the host may block
    /// until then (or until an outside event arrives).
    WaitUntil(u64),
    /// Both queues are empty: the loop is over.
    Finished,
}

/// Ready queue, delay queue and clock of the single-threaded scheduler.
pub struct Scheduler {
    pub now: u64,
    pub next_id: u64,
    pub ready: Vec<Task>,
    pub delayed: Vec<Task>,
    pub cancelled: Vec<u64>,
}

/// The tasks of `s` that are due at clock `now`, in order.
pub open spec fn due(s: Seq<Task>, now: u64) -> Seq<Task>
    decreases s.len(),
{
    if s.len() == 0 {
        s
    } else if s.last().wake <= now {
        due(s.drop_last(), now).push(s.last())
    } else {
        due(s.drop_last(), now)
    }
}

/// The tasks of `s` that are still waiting at clock `now`, in order.
pub open spec fn waiting(s: Seq<Task>, now: u64) -> Seq<Task>
    decreases s.len(),
{
    if s.len() == 0 {
        s
    } else if s.last().wake > now {
        waiting(s.drop_last(), now).push(s.last())
    } else {
        waiting(s.drop_last(), now)
    }
}

proof fn lemma_waiting_all(s: Seq<Task>, now: u64)
    ensures
        forall|i: int| 0 <= i < waiting(s, now).len() ==> waiting(s, now)[i].wake > now,
        waiting(s, now).len() <= s.len(),
    decreases s.len(),
{
    if s.len() > 0 {
        lemma_waiting_all(s.drop_last(), now);
        let d = waiting(s.drop_last(), now);
        if s.last().wake > now {
            assert(waiting(s, now) == d.push(s.last()));
            assert forall|i: int| 0 <= i < waiting(s, now).len() implies waiting(s, now)[i].wake > now by {
                if i < d.len() {
                    assert(waiting(s, now)[i] == d[i]);
                }
            }
        }
    }
}

proof fn lemma_due_from(s: Seq<Task>, now: u64)
    ensures
        forall|i: int| 0 <= i < due(s, now).len() ==> s.contains(#[trigger] due(s, now)[i]),
    decreases s.len(),
{
    if s.len() > 0 {
        lemma_due_from(s.drop_last(), now);
        let d = due(s.drop_last(), now);
        assert forall|i: int| 0 <= i < due(s, now).len() implies s.contains(#[trigger] due(s, now)[i]) by {
            if i < d.len() {
                assert(due(s, now)[i] == d[i]);
                let j = choose|j: int| 0 <= j < s.drop_last().len() && s.drop_last()[j] == d[i];
                assert(s[j] == d[i]);
            } else {
                assert(due(s, now)[i] == s.last());
                assert(s[s.len() - 1] == s.last());
            }
        }
    }
}

proof fn lemma_due_all(s: Seq<Task>, now: u64)
    ensures
        forall|i: int| 0 <= i < due(s, now).len() ==> due(s, now)[i].wake <= now,
    decreases s.len(),
{
    if s.len() > 0 {
        lemma_due_all(s.drop_last(), now);
        let d = due(s.drop_last(), now);
        if s.last().wake <= now {
            assert(due(s, now) == d.push(s.last()));
            assert forall|i: int| 0 <= i < due(s, now).len() implies due(s, now)[i].wake <= now by {
                if i < d.len() {
                    assert(due(s, now)[i] == d[i]);
                }
            }
        }
    }
}

/// `a + b`, or the largest clock value when that overflows.
pub open spec fn wake_time(now: u64, delay: u64) -> u64 {
    if now + delay > u64::MAX {
        u64::MAX
    } else {
        (now + delay) as u64
    }
}

impl Scheduler {
    /// Every ready task is due.
    pub open spec fn wf(&self) -> bool {
        forall|i: int| 0 <= i < self.ready@.len() ==> (#[trigger] self.ready@[i]).wake <= self.now
    }

    pub fn new() -> (r: Scheduler)
        ensures
            r.wf(),
            r.now == 0,
            r.ready@.len() == 0,
            r.delayed@.len() == 0,
    {
        Scheduler { now: 0, next_id: 0, ready: Vec::new(), delayed: Vec::new(), cancelled: Vec::new() }
    }

    /// Makes a new task ready to run at the current clock and returns its id.
    pub fn spawn(&mut self) -> (r: u64)
        requires
            old(self).wf(),
            old(self).next_id < u64::MAX,
        ensures
            final(self).wf(),
            r == old(self).next_id,
            final(self).next_id == old(self).next_id + 1,
            final(self).now == old(self).now,
            final(self).ready@ == old(self).ready@.push(Task { id: r, wake: old(self).now }),
            final(self).delayed@ == old(self).delayed@,
    {
        let id = self.next_id;
        self.next_id = id + 1;
        self.ready.push(Task { id, wake: self.now });
        id
    }

    /// Creates a task that may run `delay` ticks from now, and returns its id.
    pub fn spawn_after(&mut self, delay: u64) -> (r: u64)
        requires
            old(self).wf(),
            old(self).next_id < u64::MAX,
        ensures
            final(self).wf(),
            r == old(self).next_id,
            final(self).next_id == old(self).next_id + 1,
            final(self).now == old(self).now,
            final(self).ready@ == old(self).ready@,
            final(self).delayed@ == old(self).delayed@.push(Task { id: r, wake: wake_time(old(self).now, delay) }),
    {
        let id = self.next_id;
        self.next_id = id + 1;
        let wake = self.now.saturating_add(delay);
        self.delayed.push(Task { id, wake });
        id
    }

    /// Suspends task `id` until the clock reaches `until`.
    pub fn sleep(&mut self, id: u64, until: u64)
        requires
            old(self).wf(),
        ensures
            final(self).wf(),
            final(self).now == old(self).now,
            final(self).next_id == old(self).next_id,
            final(self).ready@ == old(self).ready@,
            final(self).delayed@ == old(self).delayed@.push(Task { id, wake: until }),
    {
        self.delayed.push(Task { id, wake: until });
    }

    /// Suspends task `id` for `duration` ticks from now.
    pub fn sleep_for(&mut self, id: u64, duration: u64)
        requires
            old(self).wf(),
        ensures
            final(self).wf(),
            final(self).now == old(self).now,
            final(self).next_id == old(self).next_id,
            final(self).ready@ == old(self).ready@,
            final(self).delayed@ == old(self).delayed@.push(Task { id, wake: wake_time(old(self).now, duration) }),
    {
        let until = self.now.saturating_add(duration);
        self.sleep(id, until);
    }

    /// Drops task `id`: it is discarded the next time it would be scheduled.
    pub fn cancel(&mut self, id: u64)
        requires
            old(self).wf(),
        ensures
            final(self).wf(),
            final(self).now == old(self).now,
            final(self).next_id == old(self).next_id,
            final(self).ready@ == old(self).ready@,
            final(self).delayed@ == old(self).delayed@,
            final(self).cancelled@ == old(self).cancelled@.push(id),
    {
        self.cancelled.push(id);
    }

    /// Moves the clock to `to` (it never goes back) and every delayed task
    /// that is then due to the end of the ready queue, in order.
    pub fn advance(&mut self, to: u64)
        requires
            old(self).wf(),
        ensures
            final(self).wf(),
            final(self).now == if to > old(self).now { to } else { old(self).now },
            final(self).next_id == old(self).next_id,
            final(self).cancelled@ == old(self).cancelled@,
            final(self).ready@ == old(self).ready@ + due(old(self).delayed@, final(self).now),
            final(self).delayed@ == waiting(old(self).delayed@, final(self).now),
    {
        if to > self.now {
            self.now = to;
        }
        let now = self.now;
        let ghost old_delayed = self.delayed@;
        let ghost old_ready = self.ready@;
        let mut keep: Vec<Task> = Vec::new();
        let mut i: usize = 0;
        while i < self.delayed.len()
            invariant
                i <= self.delayed@.len(),
                self.delayed@ == old_delayed,
                self.now == now,
                self.next_id == old(self).next_id,
                self.cancelled@ == old(self).cancelled@,
                forall|j: int| 0 <= j < old_ready.len() ==> old_ready[j].wake <= now,
                self.ready@ == old_ready + due(old_delayed.subrange(0, i as int), now),
                keep@ == waiting(old_delayed.subrange(0, i as int), now),
            decreases self.delayed@.len() - i,
        {
            let t = self.delayed[i];
            proof {
                assert(old_delayed.subrange(0, i + 1).drop_last() =~= old_delayed.subrange(0, i as int));
            }
            if t.wake <= now {
                self.ready.push(t);
            } else {
                keep.push(t);
            }
            i = i + 1;
            assert(self.ready@ =~= old_ready + due(old_delayed.subrange(0, i as int), now));
        }
        assert(old_delayed.subrange(0, old_delayed.len() as int) =~= old_delayed);
        self.delayed = keep;
        proof {
            lemma_due_all(old_delayed, now);
            assert forall|j: int| 0 <= j < self.ready@.len() implies (#[trigger] self.ready@[j]).wake <= self.now by {
                if j >= old_ready.len() {
                    assert(self.ready@[j] == due(old_delayed, now)[j - old_ready.len()]);
                }
            }
        }
    }

    /// The earliest wake time in the delay queue.
    pub fn earliest_wake(&self) -> (r: Option<u64>)
        ensures
            match r {
                None => self.delayed@.len() == 0,
                Some(w) => (exists|i: int| 0 <= i < self.delayed@.len() && self.delayed@[i].wake == w) && forall|i: int|
                    0 <= i < self.delayed@.len() ==> w <= (#[trigger] self.delayed@[i]).wake,
            },
    {
        if self.delayed.len() == 0 {
            return None;
        }
        let mut best: u64 = self.delayed[0].wake;
        let mut i: usize = 1;
        while i < self.delayed.len()
            invariant
                1 <= i <= self.delayed@.len(),
                exists|k: int| 0 <= k < i && self.delayed@[k].wake == best,
                forall|k: int| 0 <= k < i ==> best <= (#[trigger] self.delayed@[k]).wake,
            decreases self.delayed@.len() - i,
        {
            if self.delayed[i].wake < best {
                best = self.delayed[i].wake;
            }
            i = i + 1;
        }
        Some(best)
    }

    /// One decision of the run loop at host clock `now`: moves the clock
    /// and the due tasks on, then hands out the next task that may run, or
    /// says until when nothing can run, or that nothing is left.
    pub fn schedule(&mut self, now: u64) -> (r: Schedule)
        requires
            old(self).wf(),
        ensures
            final(self).wf(),
            final(self).now == if now > old(self).now { now } else { old(self).now },
            final(self).next_id == old(self).next_id,
            match r {
                Schedule::Run(t) => t.wake <= final(self).now && (old(self).ready@.contains(t) || old(self).delayed@.contains(t))
                    && !final(self).cancelled@.contains(t.id) && exists|k: int|
                    0 <= k < old(self).ready@.len() + due(old(self).delayed@, final(self).now).len() && (old(self).ready@ + due(
                        old(self).delayed@,
                        final(self).now,
                    ))[k] == t && final(self).ready@ == (old(self).ready@ + due(old(self).delayed@, final(self).now)).subrange(
                        k + 1,
                        (old(self).ready@.len() + due(old(self).delayed@, final(self).now).len()) as int,
                    ),
                Schedule::WaitUntil(w) => final(self).ready@.len() == 0 && w > final(self).now && (exists|i: int|
                    0 <= i < final(self).delayed@.len() && final(self).delayed@[i].wake == w) && forall|i: int|
                    0 <= i < final(self).delayed@.len() ==> w <= (#[trigger] final(self).delayed@[i]).wake,
                Schedule::Finished => final(self).ready@.len() == 0 && final(self).delayed@.len() == 0,
            },
    {
        let ghost before = self.delayed@;
        let ghost ready0 = self.ready@;
        self.advance(now);
        proof {
            lemma_waiting_all(before, self.now);
            lemma_due_from(before, self.now);
        }
        let ghost joined = self.ready@;
        match self.pop() {
            Some(t) => {
                proof {
                    let k = choose|k: int| 0 <= k < joined.len() && joined[k] == t && self.ready@ == joined.subrange(k + 1, joined.len() as int)
                        && forall|j: int| 0 <= j < k ==> old(self).cancelled@.contains(#[trigger] joined[j].id);
                    if k >= ready0.len() {
                        assert(joined[k] == due(before, self.now)[k - ready0.len()]);
                    } else {
                        assert(joined[k] == ready0[k]);
                    }
                }
                Schedule::Run(t)
            },
            None => match self.earliest_wake() {
                Some(w) => Schedule::WaitUntil(w),
                None => Schedule::Finished,
            },
        }
    }

    fn is_cancelled(&self, id: u64) -> (r: bool)
        ensures
            r == self.cancelled@.contains(id),
    {
        let mut i: usize = 0;
        while i < self.cancelled.len()
            invariant
                i <= self.cancelled@.len(),
                forall|j: int| 0 <= j < i ==> self.cancelled@[j] != id,
            decreases self.cancelled@.len() - i,
        {
            if self.cancelled[i] == id {
                return true;
            }
            i = i + 1;
        }
        false
    }

    /// Takes the first ready task that was not cancelled, discarding the
    /// cancelled ones before it. A task only ever comes out once it is due.
    pub fn pop(&mut self) -> (r: Option<Task>)
        requires
            old(self).wf(),
        ensures
            final(self).wf(),
            final(self).now == old(self).now,
            final(self).next_id == old(self).next_id,
            final(self).delayed@ == old(self).delayed@,
            final(self).cancelled@ == old(self).cancelled@,
            match r {
                Some(t) => t.wake <= final(self).now && !old(self).cancelled@.contains(t.id) && exists|k: int|
                    0 <= k < old(self).ready@.len() && old(self).ready@[k] == t && final(self).ready@
                        == old(self).ready@.subrange(k + 1, old(self).ready@.len() as int) && forall|j: int|
                        0 <= j < k ==> old(self).cancelled@.contains(#[trigger] old(self).ready@[j].id),
                None => final(self).ready@.len() == 0 && forall|j: int|
                    0 <= j < old(self).ready@.len() ==> old(self).cancelled@.contains(#[trigger] old(self).ready@[j].id),
            },
    {
        let ghost old_ready = self.ready@;
        let mut k: usize = 0;
        while k < self.ready.len()
            invariant
                k <= old_ready.len(),
                self.ready@ == old_ready,
                old_ready == old(self).ready@,
                old(self).wf(),
                self.now == old(self).now,
                self.next_id == old(self).next_id,
                self.cancelled@ == old(self).cancelled@,
                self.delayed@ == old(self).delayed@,
                forall|j: int| 0 <= j < k ==> old(self).cancelled@.contains(#[trigger] old_ready[j].id),
            decreases old_ready.len() - k,
        {
            let t = self.ready[k];
            if !self.is_cancelled(t.id) {
                let mut rest: Vec<Task> = Vec::new();
                let mut j: usize = k + 1;
                while j < self.ready.len()
                    invariant
                        k + 1 <= j <= old_ready.len(),
                        self.ready@ == old_ready,
                        old_ready == old(self).ready@,
                        old(self).wf(),
                        self.now == old(self).now,
                        self.next_id == old(self).next_id,
                        self.cancelled@ == old(self).cancelled@,
                        self.delayed@ == old(self).delayed@,
                        rest@ == old_ready.subrange(k + 1, j as int),
                    decreases old_ready.len() - j,
                {
                    rest.push(self.ready[j]);
                    j = j + 1;
                    assert(rest@ =~= old_ready.subrange(k + 1, j as int));
                }
                assert(old(self).ready@[k as int] == t);
                self.ready = rest;
                assert forall|i: int| 0 <= i < self.ready@.len() implies (#[trigger] self.ready@[i]).wake <= self.now by {
                    assert(self.ready@[i] == old(self).ready@[k + 1 + i]);
                }
                assert(self.ready@ == old(self).ready@.subrange(k + 1, old(self).ready@.len() as int));
                assert(old(self).ready@[k as int] == t);
                return Some(t);
            }
            k = k + 1;
        }
        self.ready = Vec::new();
        None
    }
}

/// Whatever happened before, a task that comes out of the ready queue never
/// runs before its wake time: each ready task is due at the current clock.
pub proof fn lemma_ready_tasks_due(s: &Scheduler, i: int)
    requires
        s.wf(),
        0 <= i < s.ready@.len(),
    ensures
        s.ready@[i].wake <= s.now,
{
}

/// A task scheduled at clock `t0` to wake `timeout` ticks later (as
/// `spawn_after` and `MC_knlSetTimer` do) is never ready before the clock
/// has reached `t0 + timeout`, where that sum is a clock value.
pub proof fn lemma_timer_not_early(s: &Scheduler, i: int, t0: u64, timeout: u64)
    requires
        s.wf(),
        0 <= i < s.ready@.len(),
        s.ready@[i].wake == wake_time(t0, timeout),
        t0 + timeout <= u64::MAX,
    ensures
        s.now >= t0 + timeout,
{
}

} // verus!

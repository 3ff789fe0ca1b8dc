//! The deadline queue: a min-priority queue of jobs, each tagged with the
//! earliest instant at which it becomes eligible for dispatch. Instants are
//! plain milliseconds; the caller reads its clock and passes the current
//! instant in, so every contract here is exact in it.

use vstd::prelude::*;
use vstd::multiset::Multiset;

verus! {

broadcast use vstd::seq_lib::group_to_multiset_ensures;

/// A job paired with the earliest instant it becomes eligible for dispatch.
pub struct Schedule<T> {
    pub job: T,
    pub deadline: u64,
}

impl<T> Schedule<T> {
    /// Pair a job with a deadline instant.
    pub fn new(job: T, deadline: u64) -> (r: Self)
        ensures
            r.job == job,
            r.deadline == deadline,
    {
        Schedule { job, deadline }
    }

    /// Sugar for a schedule that is due immediately: its deadline is the
    /// caller's reading of the current instant.
    pub fn now(job: T, now: u64) -> (r: Self)
        ensures
            r.job == job,
            r.deadline == now,
    {
        Schedule { job, deadline: now }
    }
}

/// The queue is empty, so there is no earliest deadline to wait for.
#[derive(Debug)]
pub struct NoScheduleError;

/// True when some entry of `m` is already due at instant `now`.
pub open spec fn has_due<T>(m: Multiset<Schedule<T>>, now: u64) -> bool {
    exists|e: Schedule<T>| m.count(e) > 0 && e.deadline <= now
}

/// True when no entry of `m` has a deadline earlier than `d`.
pub open spec fn no_earlier_than<T>(m: Multiset<Schedule<T>>, d: u64) -> bool {
    forall|e: Schedule<T>| m.count(e) > 0 ==> d <= e.deadline
}

/// What the event loop asks of its queue of deferred jobs: take work that is
/// already due, or name the earliest instant worth waiting for.
pub trait ScheduleQueue<T>: Sized {
    /// The scheduled jobs still pending, as a multiset: among equal deadlines
    /// no order is promised.
    spec fn schedules(&self) -> Multiset<Schedule<T>>;

    /// The queue's internal invariant.
    spec fn wf(&self) -> bool;

    /// If any entry is due at `now`, remove and return a pending job with the
    /// minimum deadline; otherwise leave the queue unchanged.
    fn get_late_schedule(&mut self, now: u64) -> (r: Option<T>)
        requires
            old(self).wf(),
        ensures
            final(self).wf(),
            match r {
                Some(job) => exists|d: u64|
                    {
                        &&& old(self).schedules().count((Schedule { job, deadline: d })) > 0
                        &&& d <= now
                        &&& no_earlier_than(old(self).schedules(), d)
                        &&& final(self).schedules() == old(self).schedules().remove(
                            (Schedule { job, deadline: d }),
                        )
                    },
                None => final(self).schedules() == old(self).schedules() && !has_due(
                    old(self).schedules(),
                    now,
                ),
            },
    ;

    /// The instant the caller should suspend until: the minimum deadline, or
    /// an error when the queue is empty and there is nothing to wait for.
    fn wait_first_schedule(&self) -> (r: Result<u64, NoScheduleError>)
        requires
            self.wf(),
        ensures
            match r {
                Ok(d) => {
                    &&& (exists|job: T| self.schedules().count((Schedule { job, deadline: d }))
                        > 0)
                    &&& no_earlier_than(self.schedules(), d)
                },
                Err(_) => self.schedules().len() == 0,
            },
    ;
}

/// The deadline queue itself: entries kept sorted with the latest deadline
/// first, so the earliest deadline always sits at the end.
pub struct DeadlineQueue<T> {
    entries: Vec<Schedule<T>>,
}

impl<T> DeadlineQueue<T> {
    /// The entries in their internal order, latest deadline first.
    spec fn entry_seq(&self) -> Seq<Schedule<T>> {
        self.entries@
    }

    /// An empty queue.
    pub fn new() -> (r: Self)
        ensures
            r.wf(),
            r.schedules() == Multiset::<Schedule<T>>::empty(),
    {
        let r = DeadlineQueue { entries: Vec::new() };
        proof {
            assert(r.entries@.to_multiset() =~= Multiset::<Schedule<T>>::empty());
        }
        r
    }

    /// How many scheduled jobs are pending.
    pub fn len(&self) -> (r: usize)
        ensures
            r == self.schedules().len(),
    {
        self.entries.len()
    }

    /// Whether no job is pending.
    pub fn is_empty(&self) -> (r: bool)
        ensures
            r <==> self.schedules().len() == 0,
    {
        self.entries.len() == 0
    }

    /// The position at which an entry with this deadline must sit to keep the
    /// entries sorted, latest first.
    fn find_slot(&self, deadline: u64) -> (i: usize)
        requires
            self.wf(),
        ensures
            i <= self.entry_seq().len(),
            forall|k: int| 0 <= k < i ==> self.entry_seq()[k].deadline > deadline,
            i < self.entry_seq().len() ==> self.entry_seq()[i as int].deadline <= deadline,
    {
        let n = self.entries.len();
        let mut i: usize = 0;
        while i < n && self.entries[i].deadline > deadline
            invariant
                i <= n,
                n == self.entry_seq().len(),
                forall|k: int| 0 <= k < i ==> self.entry_seq()[k].deadline > deadline,
            decreases n - i,
        {
            i = i + 1;
        }
        i
    }

    /// Insert a scheduled job, keeping the queue sorted.
    #[verifier::rlimit(30)]
    pub fn push(&mut self, s: Schedule<T>)
        requires
            old(self).wf(),
        ensures
            final(self).wf(),
            final(self).schedules() == old(self).schedules().insert(s),
    {
        let i = self.find_slot(s.deadline);
        let ghost pre = self.entries@;
        self.entries.insert(i, s);
        proof {
            pre.insert_ensures(i as int, s);
            lemma_insert_to_multiset(pre, i as int, s);
            assert forall|p: int, q: int| 0 <= p < q < self.entries@.len() implies self.entries@[p].deadline
                >= self.entries@[q].deadline by {
                if q < i {
                } else if p > i {
                } else if p == i {
                    assert(self.entries@[q] == pre[q - 1]);
                } else if q == i {
                    assert(self.entries@[p] == pre[p]);
                } else {
                    assert(self.entries@[p] == pre[p]);
                    assert(self.entries@[q] == pre[q - 1]);
                    if p < i && i < q {
                        assert(pre[p].deadline >= pre[q - 1].deadline);
                    }
                }
            }
        }
    }

    /// Remove and return a pending schedule with the minimum deadline, or
    /// nothing when the queue is empty.
    pub fn pop(&mut self) -> (r: Option<Schedule<T>>)
        requires
            old(self).wf(),
        ensures
            final(self).wf(),
            match r {
                Some(s) => {
                    &&& old(self).schedules().count(s) > 0
                    &&& no_earlier_than(old(self).schedules(), s.deadline)
                    &&& final(self).schedules() == old(self).schedules().remove(s)
                },
                None => old(self).schedules().len() == 0 && final(self).schedules() == old(
                    self,
                ).schedules(),
            },
    {
        let n = self.entries.len();
        if n == 0 {
            return None;
        }
        let ghost pre = self.entries@;
        let s = self.entries.remove(n - 1);
        proof {
            assert(pre.contains(s));
            lemma_last_is_minimum(pre);
        }
        Some(s)
    }

    /// The minimum deadline among the pending schedules, or an error when
    /// none is pending.
    pub fn first_deadline(&self) -> (r: Result<u64, NoScheduleError>)
        requires
            self.wf(),
        ensures
            match r {
                Ok(d) => {
                    &&& (exists|job: T| self.schedules().count((Schedule { job, deadline: d }))
                        > 0)
                    &&& no_earlier_than(self.schedules(), d)
                },
                Err(_) => self.schedules().len() == 0,
            },
    {
        let n = self.entries.len();
        if n == 0 {
            return Err(NoScheduleError);
        }
        let d = self.entries[n - 1].deadline;
        proof {
            let last = self.entries@[n - 1];
            assert(self.entries@.contains(last));
            lemma_last_is_minimum(self.entries@);
            assert(self.schedules().count((Schedule { job: last.job, deadline: d })) > 0);
        }
        Ok(d)
    }
}

impl<T> ScheduleQueue<T> for DeadlineQueue<T> {
    closed spec fn schedules(&self) -> Multiset<Schedule<T>> {
        self.entries@.to_multiset()
    }

    closed spec fn wf(&self) -> bool {
        forall|p: int, q: int|
            0 <= p < q < self.entries@.len() ==> self.entries@[p].deadline
                >= self.entries@[q].deadline
    }

    fn get_late_schedule(&mut self, now: u64) -> (r: Option<T>) {
        let n = self.entries.len();
        if n == 0 {
            proof {
                assert(self.entries@.to_multiset().len() == 0);
            }
            return None;
        }
        if self.entries[n - 1].deadline > now {
            proof {
                lemma_last_is_minimum(self.entries@);
                assert forall|e: Schedule<T>| !(self.schedules().count(e) > 0 && e.deadline
                    <= now) by {
                    if self.schedules().count(e) > 0 {
                        assert(self.entries@[n - 1].deadline <= e.deadline);
                    }
                }
            }
            return None;
        }
        let ghost last = self.entries@[n - 1];
        proof {
            assert(self.entries@.contains(last));
            assert(self.schedules().count(last) > 0);
        }
        match self.pop() {
            Some(s) => {
                proof {
                    assert(s == (Schedule { job: s.job, deadline: s.deadline }));
                    assert(old(self).schedules().count(
                        (Schedule { job: s.job, deadline: s.deadline }),
                    ) > 0);
                    assert(s.deadline <= last.deadline);
                    assert(s.deadline <= now);
                }
                Some(s.job)
            },
            None => None,
        }
    }

    fn wait_first_schedule(&self) -> (r: Result<u64, NoScheduleError>) {
        self.first_deadline()
    }
}

/// In a queue sorted with the latest deadline first, the last entry's
/// deadline is a lower bound for every pending schedule.
proof fn lemma_last_is_minimum<T>(s: Seq<Schedule<T>>)
    requires
        s.len() > 0,
        forall|p: int, q: int| 0 <= p < q < s.len() ==> s[p].deadline >= s[q].deadline,
    ensures
        no_earlier_than(s.to_multiset(), s[s.len() - 1].deadline),
{
    broadcast use vstd::seq_lib::group_to_multiset_ensures;

    assert forall|e: Schedule<T>| s.to_multiset().count(e) > 0 implies s[s.len() - 1].deadline
        <= e.deadline by {
        assert(s.contains(e));
        let i = choose|i: int| 0 <= i < s.len() && s[i] == e;
        if i < s.len() - 1 {
            assert(s[i].deadline >= s[s.len() - 1].deadline);
        }
    }
}

/// Inserting an element anywhere in a sequence adds exactly that element to
/// the sequence's multiset.
proof fn lemma_insert_to_multiset<T>(s: Seq<Schedule<T>>, i: int, a: Schedule<T>)
    requires
        0 <= i <= s.len(),
    ensures
        s.insert(i, a).to_multiset() == s.to_multiset().insert(a),
{
    broadcast use vstd::seq_lib::group_to_multiset_ensures;

    let big = s.insert(i, a);
    s.insert_ensures(i, a);
    assert(big.remove(i) =~= s);
    assert(big.remove(i).to_multiset() == big.to_multiset().remove(big[i]));
    assert(big[i] == a);
    assert(big.contains(a));
    assert(big.to_multiset().count(a) > 0);
    assert forall|x: Schedule<T>| big.to_multiset().count(x) == s.to_multiset().insert(a).count(
        x,
    ) by {
        if x == a {
            assert(s.to_multiset().count(a) == big.to_multiset().remove(a).count(a));
        } else {
            assert(s.to_multiset().count(x) == big.to_multiset().remove(a).count(x));
        }
    }
    assert(big.to_multiset() =~= s.to_multiset().insert(a));
}

/// Pushing a schedule whose deadline is already past makes the queue
/// immediately eligible for a non-waiting pop: some entry is due.
pub proof fn lemma_past_deadline_is_due<T>(m: Multiset<Schedule<T>>, s: Schedule<T>, now: u64)
    requires
        s.deadline <= now,
    ensures
        has_due(m.insert(s), now),
{
    assert(m.insert(s).count(s) > 0);
}

} // verus!

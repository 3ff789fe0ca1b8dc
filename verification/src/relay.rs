//! The event loop's decision core. The loop itself — accepting sockets,
//! racing readiness, sleeping until a deadline — belongs to the caller that
//! owns the sockets; every decision it takes is a function here, acting on
//! the two pools and the deadline queue.

use vstd::prelude::*;
use vstd::multiset::Multiset;
use crate::job::{From, Job};
use crate::pool::{distinct_keys, Pool};
use crate::protocol::{decode_lossy, frame_payload, lossy_of, parse_command, parse_request,
    LINE_END};
use crate::schedule::{DeadlineQueue, Schedule, ScheduleQueue};

verus! {

/// What the caller must do after a job was dispatched.
pub enum Action {
    /// Nothing: the job was discarded (an unobtainable peer address, or a
    /// job for an address that already left its pool).
    Ignore,
    /// The connection was filed into its pool: log the accept. `replaced`
    /// is the token the address was bound to before, to be released.
    Accepted { addr: u64, origin: From, replaced: Option<u64> },
    /// The address was unbound from its pool: log the drop and release the
    /// token, if one was still bound.
    Dropped { addr: u64, origin: From, released: Option<u64> },
    /// The member is readable: drain it and feed the outcome back through
    /// `on_read_failure` or `plan_broadcast`.
    ReadFrom { addr: u64, conn: u64, origin: From },
}

/// One validated client command, ready to fan out: the framed message and
/// every node connection it must be written to.
pub struct BroadcastPlan {
    pub message: Vec<u8>,
    pub targets: Vec<(u64, u64)>,
}

/// The immediate Drop jobs that a set of per-destination write failures
/// schedules: one for each failed address, due at `now`.
pub open spec fn drop_jobs_of(failed: Seq<u64>, now: u64) -> Multiset<Schedule<Job>>
    decreases failed.len(),
{
    if failed.len() == 0 {
        Multiset::empty()
    } else {
        drop_jobs_of(failed.drop_last(), now).insert(
            (Schedule { job: Job::Drop(failed.last(), From::Node), deadline: now }),
        )
    }
}

/// The relay's whole state: the client pool, the node pool, and the queue
/// of deferred jobs. The pools are independent: the same numeric address
/// may be a member of both without either entry affecting the other.
pub struct ServerState {
    pub clients: Pool,
    pub nodes: Pool,
    pub queue: DeadlineQueue<Job>,
}

impl ServerState {
    /// All three parts keep their invariants.
    pub open spec fn wf(&self) -> bool {
        self.clients.wf() && self.nodes.wf() && self.queue.wf()
    }

    /// The pool a job with this origin tag concerns.
    pub open spec fn pool_of(&self, origin: From) -> Map<u64, u64> {
        if origin == From::Client {
            self.clients@
        } else {
            self.nodes@
        }
    }

    /// The pool a job with this origin tag does not concern.
    pub open spec fn other_pool_of(&self, origin: From) -> Map<u64, u64> {
        if origin == From::Client {
            self.nodes@
        } else {
            self.clients@
        }
    }

    /// Empty pools, nothing scheduled.
    pub fn new() -> (r: Self)
        ensures
            r.wf(),
            r.clients@ == Map::<u64, u64>::empty(),
            r.nodes@ == Map::<u64, u64>::empty(),
            r.queue.schedules() == Multiset::<Schedule<Job>>::empty(),
    {
        ServerState { clients: Pool::new(), nodes: Pool::new(), queue: DeadlineQueue::new() }
    }

    /// Interpret one job against the pools. An accept without an obtainable
    /// peer address is silently discarded; a drop of an absent address is a
    /// no-op and never an error; a read of an absent address is discarded.
    /// Whatever the job, the pool of the other population and the queue are
    /// untouched.
    pub fn dispatch(&mut self, job: Job) -> (act: Action)
        requires
            old(self).wf(),
        ensures
            final(self).wf(),
            final(self).queue.schedules() == old(self).queue.schedules(),
            match job {
                Job::Accept(h, origin) => match h.peer {
                    Some(a) => {
                        &&& final(self).pool_of(origin) == old(self).pool_of(origin).insert(
                            a,
                            h.id,
                        )
                        &&& final(self).other_pool_of(origin) == old(self).other_pool_of(origin)
                        &&& act == (Action::Accepted {
                            addr: a,
                            origin,
                            replaced: if old(self).pool_of(origin).contains_key(a) {
                                Some(old(self).pool_of(origin)[a])
                            } else {
                                None
                            },
                        })
                    },
                    None => {
                        &&& final(self).clients@ == old(self).clients@
                        &&& final(self).nodes@ == old(self).nodes@
                        &&& act == Action::Ignore
                    },
                },
                Job::Drop(a, origin) => {
                    &&& final(self).pool_of(origin) == old(self).pool_of(origin).remove(a)
                    &&& final(self).other_pool_of(origin) == old(self).other_pool_of(origin)
                    &&& !old(self).pool_of(origin).contains_key(a) ==> final(self).pool_of(origin)
                        == old(self).pool_of(origin)
                    &&& act == (Action::Dropped {
                        addr: a,
                        origin,
                        released: if old(self).pool_of(origin).contains_key(a) {
                            Some(old(self).pool_of(origin)[a])
                        } else {
                            None
                        },
                    })
                },
                Job::Read(a, origin) => {
                    &&& final(self).clients@ == old(self).clients@
                    &&& final(self).nodes@ == old(self).nodes@
                    &&& act == if old(self).pool_of(origin).contains_key(a) {
                        (Action::ReadFrom { addr: a, conn: old(self).pool_of(origin)[a], origin })
                    } else {
                        Action::Ignore
                    }
                },
            },
    {
        match job {
            Job::Accept(h, origin) => match h.peer {
                Some(addr) => {
                    let replaced = match origin {
                        From::Client => self.clients.insert(addr, h.id),
                        From::Node => self.nodes.insert(addr, h.id),
                    };
                    Action::Accepted { addr, origin, replaced }
                },
                None => Action::Ignore,
            },
            Job::Drop(addr, origin) => {
                let released = match origin {
                    From::Client => self.clients.remove(addr),
                    From::Node => self.nodes.remove(addr),
                };
                proof {
                    if !old(self).pool_of(origin).contains_key(addr) {
                        crate::pool::lemma_remove_absent_is_noop(
                            old(self).pool_of(origin),
                            addr,
                        );
                    }
                }
                Action::Dropped { addr, origin, released }
            },
            Job::Read(addr, origin) => {
                let conn = match origin {
                    From::Client => self.clients.get(addr),
                    From::Node => self.nodes.get(addr),
                };
                match conn {
                    Some(c) => Action::ReadFrom { addr, conn: c, origin },
                    None => Action::Ignore,
                }
            },
        }
    }

    /// A failed drain read evicts exactly the affected connection, and only
    /// through the one teardown path: an immediate Drop job is scheduled,
    /// due at the caller's current instant; nothing is removed inline.
    pub fn on_read_failure(&mut self, addr: u64, origin: From, now: u64)
        requires
            old(self).wf(),
        ensures
            final(self).wf(),
            final(self).clients@ == old(self).clients@,
            final(self).nodes@ == old(self).nodes@,
            final(self).queue.schedules() == old(self).queue.schedules().insert(
                (Schedule { job: Job::Drop(addr, origin), deadline: now }),
            ),
    {
        let s = Schedule::now(Job::Drop(addr, origin), now);
        proof {
            assert(s == (Schedule { job: Job::Drop(addr, origin), deadline: now }));
        }
        self.queue.push(s);
    }

    /// Interpret the bytes of one successful drain read from a client: if
    /// they command a payload, frame it and list every current member of the
    /// node pool as a target; otherwise nothing is commanded and the read is
    /// discarded silently. The state itself is untouched either way.
    pub fn plan_broadcast(&self, data: &[u8]) -> (r: Option<BroadcastPlan>)
        requires
            self.wf(),
        ensures
            match r {
                Some(p) => {
                    &&& parse_request(lossy_of(data@)) is Some
                    &&& p.message@ == parse_request(lossy_of(data@)).unwrap().push(LINE_END)
                    &&& p.targets@.len() == self.nodes@.dom().len()
                    &&& forall|i: int|
                        0 <= i < p.targets@.len() ==> #[trigger] self.nodes@.contains_key(
                            p.targets@[i].0,
                        ) && self.nodes@[p.targets@[i].0] == p.targets@[i].1
                    &&& forall|k: u64| self.nodes@.contains_key(k) ==> exists|i: int|
                        0 <= i < p.targets@.len() && p.targets@[i].0 == k
                    &&& distinct_keys(p.targets@)
                },
                None => parse_request(lossy_of(data@)) is None,
            },
    {
        let decoded = decode_lossy(data);
        match parse_command(decoded.as_slice()) {
            Some(payload) => {
                let message = frame_payload(&payload);
                let targets = self.nodes.members();
                Some(BroadcastPlan { message, targets })
            },
            None => None,
        }
    }

    /// Per-destination write failures of one fan-out: each failed node gets
    /// exactly one immediate Drop scheduled, due at the caller's current
    /// instant; the pools — and so the rest of the broadcast — are
    /// unaffected.
    pub fn record_write_failures(&mut self, failed: &Vec<u64>, now: u64)
        requires
            old(self).wf(),
        ensures
            final(self).wf(),
            final(self).clients@ == old(self).clients@,
            final(self).nodes@ == old(self).nodes@,
            final(self).queue.schedules() == old(self).queue.schedules().add(
                drop_jobs_of(failed@, now),
            ),
    {
        let ghost orig = old(self).queue.schedules();
        let n = failed.len();
        let mut j: usize = 0;
        proof {
            assert(failed@.subrange(0, 0) =~= Seq::<u64>::empty());
            assert(orig.add(drop_jobs_of(failed@.subrange(0, 0), now)) =~= orig);
        }
        while j < n
            invariant
                j <= n,
                n == failed@.len(),
                self.queue.wf(),
                self.clients.wf(),
                self.nodes.wf(),
                self.clients@ == old(self).clients@,
                self.nodes@ == old(self).nodes@,
                self.queue.schedules() == orig.add(drop_jobs_of(failed@.subrange(0, j as int), now)),
            decreases n - j,
        {
            let s = Schedule::new(Job::Drop(failed[j], From::Node), now);
            proof {
                assert(s == (Schedule { job: Job::Drop(failed@[j as int], From::Node), deadline: now }));
            }
            self.queue.push(s);
            proof {
                let pre = failed@.subrange(0, j as int);
                let post = failed@.subrange(0, j + 1);
                assert(post.drop_last() =~= pre);
                assert(post.last() == failed@[j as int]);
                assert(drop_jobs_of(post, now) == drop_jobs_of(pre, now).insert(s));
                assert(orig.add(drop_jobs_of(pre, now)).insert(s) =~= orig.add(
                    drop_jobs_of(post, now),
                ));
            }
            j = j + 1;
        }
        proof {
            assert(failed@.subrange(0, n as int) =~= failed@);
        }
    }
}

/// The scheduled teardowns of one fan-out match its failures one for one:
/// an address that failed `m` times is scheduled `m` times, and an address
/// that did not fail is never scheduled.
pub proof fn lemma_one_drop_per_failure(failed: Seq<u64>, now: u64, a: u64)
    ensures
        drop_jobs_of(failed, now).count(
            (Schedule { job: Job::Drop(a, From::Node), deadline: now }),
        ) == failed.to_multiset().count(a),
    decreases failed.len(),
{
    broadcast use vstd::seq_lib::group_to_multiset_ensures;

    if failed.len() == 0 {
        assert(failed.to_multiset() =~= Multiset::<u64>::empty());
    } else {
        let pre = failed.drop_last();
        lemma_one_drop_per_failure(pre, now, a);
        assert(pre.push(failed.last()) =~= failed);
        assert(pre.push(failed.last()).to_multiset() == pre.to_multiset().insert(failed.last()));
        if failed.last() == a {
        } else {
            assert((Schedule { job: Job::Drop(failed.last(), From::Node), deadline: now })
                != (Schedule { job: Job::Drop(a, From::Node), deadline: now }));
        }
    }
}

} // verus!

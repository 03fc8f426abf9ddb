//! The worker registry: one record per live worker, keyed by listener tag
//! and worker id, owning that worker's control channel.

use vstd::prelude::*;

use crate::channel::Channel;
use crate::codec::str_eq;
use crate::data::{ProxyType, RunState, WorkerInfo, WorkerInfoV};

verus! {

/// A live worker: its description and the framed channel the master
/// commands it through.
pub struct Worker {
    pub info: WorkerInfo,
    pub address: String,
    pub port: u16,
    pub channel: Channel,
}

impl Worker {
    /// A freshly spawned worker record, in the `Running` state.
    pub fn new(
        tag: String,
        id: u32,
        pid: i32,
        proxy_type: ProxyType,
        address: String,
        port: u16,
        channel: Channel,
    ) -> (r: Worker)
        ensures
            r.info@.tag == tag@,
            r.info@.id == id,
            r.info@.pid == pid,
            r.info@.proxy_type == proxy_type,
            r.info@.run_state == RunState::Running,
            r.address@ == address@,
            r.port == port,
            r.channel == channel,
    {
        Worker {
            info: WorkerInfo { id, pid, tag, proxy_type, run_state: RunState::Running },
            address,
            port,
            channel,
        }
    }
}

/// The descriptions of a list of workers.
pub open spec fn infos_view(ws: Seq<Worker>) -> Seq<WorkerInfoV> {
    Seq::new(ws.len(), |i: int| ws[i].info@)
}

/// How many of these workers serve `tag` and are running.
pub open spec fn count_running(ws: Seq<WorkerInfoV>, tag: Seq<char>) -> nat
    decreases ws.len(),
{
    if ws.len() == 0 {
        0
    } else {
        count_running(ws.drop_last(), tag) + (if ws.last().tag == tag && ws.last().run_state
            == RunState::Running {
            1nat
        } else {
            0nat
        })
    }
}

/// Appending workers of `tag`, all running, raises the count by exactly
/// their number.
proof fn lemma_count_append(ws: Seq<WorkerInfoV>, added: Seq<WorkerInfoV>, tag: Seq<char>)
    requires
        forall|i: int|
            0 <= i < added.len() ==> (#[trigger] added[i]).tag == tag && added[i].run_state
                == RunState::Running,
    ensures
        count_running(ws + added, tag) == count_running(ws, tag) + added.len(),
    decreases added.len(),
{
    if added.len() == 0 {
        assert(ws + added =~= ws);
    } else {
        assert((ws + added).drop_last() =~= ws + added.drop_last());
        assert((ws + added).last() == added.last());
        lemma_count_append(ws, added.drop_last(), tag);
    }
}

/// After a transient loss, spawning exactly the missing number of workers
/// for a tag restores the configured count: the registry converges back to
/// `desired` running workers of that tag.
pub proof fn lemma_worker_count_restored(
    ws: Seq<WorkerInfoV>,
    added: Seq<WorkerInfoV>,
    tag: Seq<char>,
    desired: nat,
)
    requires
        count_running(ws, tag) <= desired,
        added.len() == desired - count_running(ws, tag),
        forall|i: int|
            0 <= i < added.len() ==> (#[trigger] added[i]).tag == tag && added[i].run_state
                == RunState::Running,
    ensures
        count_running(ws + added, tag) == desired,
{
    lemma_count_append(ws, added, tag);
}

/// The id a spawn under `tag` takes next: 0 with no workers of that tag,
/// else one past the largest id in use, saturating at the type's top.
pub open spec fn next_id_of(ws: Seq<WorkerInfoV>, tag: Seq<char>) -> u32
    decreases ws.len(),
{
    if ws.len() == 0 {
        0u32
    } else {
        let r = next_id_of(ws.drop_last(), tag);
        if ws.last().tag == tag && ws.last().id >= r {
            if ws.last().id == u32::MAX {
                u32::MAX
            } else {
                (ws.last().id + 1) as u32
            }
        } else {
            r
        }
    }
}

/// The registry itself: every live worker, in spawn order.
pub struct Registry {
    pub workers: Vec<Worker>,
}

impl Registry {
    /// An empty registry.
    pub fn new() -> (r: Registry)
        ensures
            r.workers@.len() == 0,
    {
        Registry { workers: Vec::new() }
    }

    /// Registers one worker after its spawn and handshake.
    pub fn insert(&mut self, w: Worker)
        ensures
            final(self).workers@ == old(self).workers@.push(w),
            infos_view(final(self).workers@) == infos_view(old(self).workers@).push(w.info@),
    {
        self.workers.push(w);
        proof {
            assert(infos_view(self.workers@) =~= infos_view(old(self).workers@).push(
                self.workers@.last().info@,
            ));
        }
    }

    /// The `ListWorkers` projection: every worker's description, in order.
    pub fn list(&self) -> (r: Vec<WorkerInfo>)
        ensures
            r@.len() == self.workers@.len(),
            forall|i: int|
                0 <= i < r@.len() ==> (#[trigger] r@[i])@ == infos_view(self.workers@)[i],
    {
        let mut r: Vec<WorkerInfo> = Vec::new();
        let mut i: usize = 0;
        while i < self.workers.len()
            invariant
                0 <= i <= self.workers@.len(),
                r@.len() == i,
                forall|k: int|
                    0 <= k < i ==> (#[trigger] r@[k])@ == infos_view(self.workers@)[k],
            decreases self.workers@.len() - i,
        {
            let w = &self.workers[i];
            let info = WorkerInfo {
                id: w.info.id,
                pid: w.info.pid,
                tag: w.info.tag.clone(),
                proxy_type: w.info.proxy_type,
                run_state: w.info.run_state,
            };
            r.push(info);
            i = i + 1;
        }
        r
    }

    /// How many running workers serve `tag`.
    pub fn running_count(&self, tag: &str) -> (r: usize)
        ensures
            r == count_running(infos_view(self.workers@), tag@),
    {
        let ghost all = infos_view(self.workers@);
        let mut n: usize = 0;
        let mut i: usize = 0;
        while i < self.workers.len()
            invariant
                0 <= i <= self.workers@.len(),
                all == infos_view(self.workers@),
                n == count_running(all.take(i as int), tag@),
                n <= i,
            decreases self.workers@.len() - i,
        {
            proof {
                assert(all.take(i as int + 1).drop_last() =~= all.take(i as int));
                assert(all.take(i as int + 1).last() == all[i as int]);
            }
            let w = &self.workers[i];
            if str_eq(w.info.tag.as_str(), tag) && matches!(w.info.run_state, RunState::Running) {
                n = n + 1;
            }
            i = i + 1;
        }
        proof {
            assert(all.take(all.len() as int) =~= all);
        }
        n
    }

    /// Marks every worker with this OS pid as stopped, as the SIGCHLD
    /// handler reports an exit.
    pub fn mark_stopped(&mut self, pid: i32)
        ensures
            final(self).workers@.len() == old(self).workers@.len(),
            forall|i: int|
                0 <= i < old(self).workers@.len() ==> {
                    let wv = infos_view(old(self).workers@)[i];
                    (#[trigger] infos_view(final(self).workers@)[i]) == (if wv.pid == pid {
                        WorkerInfoV { run_state: RunState::Stopped, ..wv }
                    } else {
                        wv
                    })
                },
    {
        let mut i: usize = 0;
        while i < self.workers.len()
            invariant
                0 <= i <= self.workers@.len(),
                self.workers@.len() == old(self).workers@.len(),
                forall|k: int|
                    i <= k < old(self).workers@.len() ==> #[trigger] self.workers@[k] == old(
                        self,
                    ).workers@[k],
                forall|k: int|
                    0 <= k < i ==> {
                        let wv = infos_view(old(self).workers@)[k];
                        (#[trigger] infos_view(self.workers@)[k]) == (if wv.pid == pid {
                            WorkerInfoV { run_state: RunState::Stopped, ..wv }
                        } else {
                            wv
                        })
                    },
            decreases self.workers@.len() - i,
        {
            let ghost pre = self.workers@;
            if self.workers[i].info.pid == pid {
                self.workers[i].info.run_state = RunState::Stopped;
            }
            proof {
                assert(self.workers@[i as int].info@ == (if pre[i as int].info@.pid == pid {
                    WorkerInfoV { run_state: RunState::Stopped, ..pre[i as int].info@ }
                } else {
                    pre[i as int].info@
                }));
                assert(forall|k: int|
                    0 <= k < pre.len() && k != i ==> self.workers@[k] == pre[k]);
                assert forall|k: int| 0 <= k < i + 1 implies {
                    let wv = infos_view(old(self).workers@)[k];
                    (#[trigger] infos_view(self.workers@)[k]) == (if wv.pid == pid {
                        WorkerInfoV { run_state: RunState::Stopped, ..wv }
                    } else {
                        wv
                    })
                } by {
                    assert(infos_view(self.workers@)[k] == self.workers@[k].info@);
                    assert(infos_view(old(self).workers@)[k] == old(self).workers@[k].info@);
                    if k < i {
                        assert(self.workers@[k] == pre[k]);
                        assert(infos_view(pre)[k] == pre[k].info@);
                    } else {
                        assert(pre[i as int] == old(self).workers@[i as int]);
                    }
                }
            }
            i = i + 1;
        }
    }

    /// How many workers a respawn must add to bring `tag` back to the
    /// configured count; see [`lemma_worker_count_restored`].
    pub fn deficit(&self, tag: &str, desired: usize) -> (r: usize)
        ensures
            count_running(infos_view(self.workers@), tag@) <= desired ==> r == desired
                - count_running(infos_view(self.workers@), tag@),
            count_running(infos_view(self.workers@), tag@) > desired ==> r == 0,
    {
        let have = self.running_count(tag);
        if have >= desired {
            0
        } else {
            desired - have
        }
    }

    /// The next id a spawn under `tag` uses: 0 when the tag has no
    /// workers, else one past the largest id in use, saturating at the
    /// type's top; see [`next_id_of`].
    #[verifier::loop_isolation(false)]
    pub fn next_id(&self, tag: &str) -> (r: u32)
        ensures
            r == next_id_of(infos_view(self.workers@), tag@),
    {
        let ghost all = infos_view(self.workers@);
        let mut r: u32 = 0;
        let mut i: usize = 0;
        proof {
            assert(all.take(0) =~= Seq::<WorkerInfoV>::empty());
        }
        while i < self.workers.len()
            invariant
                0 <= i <= self.workers@.len(),
                all == infos_view(self.workers@),
                r == next_id_of(all.take(i as int), tag@),
            decreases self.workers@.len() - i,
        {
            proof {
                assert(all.take(i as int + 1).drop_last() =~= all.take(i as int));
                assert(all.take(i as int + 1).last() == all[i as int]);
            }
            let w = &self.workers[i];
            if str_eq(w.info.tag.as_str(), tag) && w.info.id >= r {
                if w.info.id == u32::MAX {
                    r = u32::MAX;
                } else {
                    r = w.info.id + 1;
                }
            }
            i = i + 1;
        }
        proof {
            assert(all.take(all.len() as int) =~= all);
        }
        r
    }
}

} // verus!

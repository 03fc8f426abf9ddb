//! The command router's correlation core: which admin request still waits
//! on which workers, how worker replies collapse into one terminal answer,
//! and how a request selects its target workers.

use vstd::prelude::*;

use crate::codec::str_eq;
use crate::data::{ConfigMessageStatus, RunState, WorkerInfo, WorkerInfoV};

verus! {

/// One admin request in flight: who asked, which workers still owe a
/// reply, and whether any reply so far failed.
pub struct PendingRequest {
    pub id: String,
    pub client: u32,
    pub outstanding: Vec<u32>,
    pub error_seen: bool,
}

/// Model of a pending request.
pub struct PendingV {
    pub id: Seq<char>,
    pub client: u32,
    pub outstanding: Seq<u32>,
    pub error_seen: bool,
}

impl View for PendingRequest {
    type V = PendingV;

    open spec fn view(&self) -> PendingV {
        PendingV {
            id: self.id@,
            client: self.client,
            outstanding: self.outstanding@,
            error_seen: self.error_seen,
        }
    }
}

/// The models of the pending table.
pub open spec fn pendings_view(ps: Seq<PendingRequest>) -> Seq<PendingV> {
    Seq::new(ps.len(), |i: int| ps[i]@)
}

/// Whether some entry carries this request id.
pub open spec fn has_id(ps: Seq<PendingV>, id: Seq<char>) -> bool {
    exists|i: int| 0 <= i < ps.len() && (#[trigger] ps[i]).id == id
}

/// The position of the first entry under `id`, or -1 when none is.
pub open spec fn idx_of(ps: Seq<PendingV>, id: Seq<char>) -> int
    decreases ps.len(),
{
    if ps.len() == 0 {
        -1
    } else if ps[0].id == id {
        0
    } else {
        let r = idx_of(ps.drop_first(), id);
        if r < 0 {
            -1
        } else {
            r + 1
        }
    }
}

/// The first position is in range, carries the id, and is the earliest.
proof fn lemma_idx_of(ps: Seq<PendingV>, id: Seq<char>)
    ensures
        idx_of(ps, id) >= 0 ==> idx_of(ps, id) < ps.len() && ps[idx_of(ps, id)].id == id
            && forall|k: int| 0 <= k < idx_of(ps, id) ==> ps[k].id != id,
        idx_of(ps, id) < 0 ==> forall|k: int| 0 <= k < ps.len() ==> ps[k].id != id,
    decreases ps.len(),
{
    if ps.len() > 0 && ps[0].id != id {
        let t = ps.drop_first();
        lemma_idx_of(t, id);
        assert(forall|k: int| 0 <= k < t.len() ==> #[trigger] t[k] == ps[k + 1]);
        if idx_of(t, id) >= 0 {
            assert(ps[idx_of(ps, id)] == t[idx_of(t, id)]);
            assert forall|k: int| 0 <= k < idx_of(ps, id) implies ps[k].id != id by {
                if k > 0 {
                    assert(ps[k] == t[k - 1]);
                }
            }
        } else {
            assert forall|k: int| 0 <= k < ps.len() implies ps[k].id != id by {
                if k > 0 {
                    assert(ps[k] == t[k - 1]);
                }
            }
        }
    }
}

/// The position of the first occurrence of `w`, or -1 when none is.
pub open spec fn first_at(s: Seq<u32>, w: u32) -> int
    decreases s.len(),
{
    if s.len() == 0 {
        -1
    } else if s[0] == w {
        0
    } else {
        let r = first_at(s.drop_first(), w);
        if r < 0 {
            -1
        } else {
            r + 1
        }
    }
}

/// The first occurrence is in range, is `w`, and is the earliest.
proof fn lemma_first_at(s: Seq<u32>, w: u32)
    ensures
        first_at(s, w) >= 0 ==> first_at(s, w) < s.len() && s[first_at(s, w)] == w && forall|
            k: int,
        | 0 <= k < first_at(s, w) ==> s[k] != w,
        first_at(s, w) < 0 ==> forall|k: int| 0 <= k < s.len() ==> s[k] != w,
    decreases s.len(),
{
    if s.len() > 0 && s[0] != w {
        let t = s.drop_first();
        lemma_first_at(t, w);
        assert(forall|k: int| 0 <= k < t.len() ==> #[trigger] t[k] == s[k + 1]);
        if first_at(t, w) >= 0 {
            assert(s[first_at(s, w)] == t[first_at(t, w)]);
            assert forall|k: int| 0 <= k < first_at(s, w) implies s[k] != w by {
                if k > 0 {
                    assert(s[k] == t[k - 1]);
                }
            }
        } else {
            assert forall|k: int| 0 <= k < s.len() implies s[k] != w by {
                if k > 0 {
                    assert(s[k] == t[k - 1]);
                }
            }
        }
    }
}

/// What one reply under `id` from `worker` does to the table and what it
/// answers: nothing on an unknown id or a worker not outstanding; else the
/// worker leaves the outstanding set, the error flag absorbs `is_error`,
/// and, exactly when the set empties, the entry leaves the table and the
/// one terminal answer `(client, Okay or Error)` is produced.
pub open spec fn spec_reply(
    ps: Seq<PendingV>,
    id: Seq<char>,
    worker: u32,
    is_error: bool,
) -> (Seq<PendingV>, Option<(u32, ConfigMessageStatus)>) {
    let i = idx_of(ps, id);
    if i < 0 {
        (ps, Option::None)
    } else {
        let p = ps[i];
        let k = first_at(p.outstanding, worker);
        if k < 0 {
            (ps, Option::None)
        } else if p.outstanding.len() == 1 {
            (
                ps.remove(i),
                Option::Some(
                    (
                        p.client,
                        if p.error_seen || is_error {
                            ConfigMessageStatus::Error
                        } else {
                            ConfigMessageStatus::Okay
                        },
                    ),
                ),
            )
        } else {
            (
                ps.update(
                    i,
                    PendingV {
                        id: p.id,
                        client: p.client,
                        outstanding: p.outstanding.remove(k),
                        error_seen: p.error_seen || is_error,
                    },
                ),
                Option::None,
            )
        }
    }
}

/// The pending table: at most one entry per request id.
pub struct RequestTracker {
    pub pending: Vec<PendingRequest>,
}

impl RequestTracker {
    /// No two entries share an id.
    pub open spec fn wf(&self) -> bool {
        forall|i: int, j: int|
            0 <= i < j < self.pending@.len() ==> (#[trigger] pendings_view(self.pending@)[i]).id
                != (#[trigger] pendings_view(self.pending@)[j]).id
    }

    /// An empty tracker.
    pub fn new() -> (r: RequestTracker)
        ensures
            r.pending@.len() == 0,
            r.wf(),
    {
        RequestTracker { pending: Vec::new() }
    }

    /// Whether a request with this id is still in flight.
    pub fn is_pending(&self, id: &str) -> (r: bool)
        ensures
            r == has_id(pendings_view(self.pending@), id@),
    {
        let mut i: usize = 0;
        while i < self.pending.len()
            invariant
                0 <= i <= self.pending@.len(),
                forall|k: int|
                    0 <= k < i ==> (#[trigger] pendings_view(self.pending@)[k]).id != id@,
            decreases self.pending@.len() - i,
        {
            if str_eq(self.pending[i].id.as_str(), id) {
                proof {
                    assert(pendings_view(self.pending@)[i as int].id == id@);
                }
                return true;
            }
            i = i + 1;
        }
        false
    }

    /// Opens a request: the admin client `client` asked under `id` and the
    /// workers in `outstanding` each owe one reply.
    pub fn open_request(&mut self, id: String, client: u32, outstanding: Vec<u32>)
        requires
            old(self).wf(),
            !has_id(pendings_view(old(self).pending@), id@),
        ensures
            final(self).wf(),
            pendings_view(final(self).pending@) == pendings_view(old(self).pending@).push(
                PendingV { id: id@, client, outstanding: outstanding@, error_seen: false },
            ),
            has_id(pendings_view(final(self).pending@), id@),
    {
        let entry = PendingRequest { id, client, outstanding, error_seen: false };
        self.pending.push(entry);
        proof {
            let nv = pendings_view(self.pending@);
            let ov = pendings_view(old(self).pending@);
            assert(nv =~= ov.push(nv.last()));
            assert(nv[nv.len() - 1].id == id@);
            assert forall|i: int, j: int|
                0 <= i < j < self.pending@.len() implies (#[trigger] nv[i]).id != (
            #[trigger] nv[j]).id by {
                if j < nv.len() - 1 {
                    assert(nv[i] == ov[i] && nv[j] == ov[j]);
                } else {
                    assert(nv[i] == ov[i]);
                    if nv[i].id == id@ {
                        assert(has_id(ov, id@));
                    }
                }
            }
        }
    }

    /// One worker's reply under `id`, exactly as [`spec_reply`] says: the
    /// worker leaves the outstanding set, the error flag absorbs
    /// `is_error`, other entries are untouched, and the one terminal
    /// answer comes exactly when the last outstanding worker replied, the
    /// entry then leaving the table.
    #[verifier::loop_isolation(false)]
    #[verifier::rlimit(60)]
    pub fn handle_reply(&mut self, id: &str, worker: u32, is_error: bool) -> (r: Option<
        (u32, ConfigMessageStatus),
    >)
        requires
            old(self).wf(),
        ensures
            final(self).wf(),
            (pendings_view(final(self).pending@), r) == spec_reply(
                pendings_view(old(self).pending@),
                id@,
                worker,
                is_error,
            ),
            r matches Option::Some(t) ==> !has_id(pendings_view(final(self).pending@), id@)
                && t.1.spec_is_terminal(),
    {
        let ghost ov = pendings_view(self.pending@);
        proof {
            lemma_idx_of(ov, id@);
        }
        let mut i: usize = 0;
        while i < self.pending.len()
            invariant
                0 <= i <= self.pending@.len(),
                *self == *old(self),
                forall|k: int|
                    0 <= k < i ==> (#[trigger] pendings_view(self.pending@)[k]).id != id@,
            decreases self.pending@.len() - i,
        {
            if str_eq(self.pending[i].id.as_str(), id) {
                proof {
                    assert(ov[i as int].id == id@);
                    assert(idx_of(ov, id@) == i) by {
                        if idx_of(ov, id@) < 0 {
                            assert(ov[i as int].id != id@);
                        } else if idx_of(ov, id@) < i {
                            assert(ov[idx_of(ov, id@)].id != id@);
                        } else if idx_of(ov, id@) > i {
                            assert(ov[i as int].id != id@);
                        }
                    }
                }
                let ghost os = self.pending@[i as int].outstanding@;
                proof {
                    lemma_first_at(os, worker);
                }
                // Drop this worker's first occurrence, keeping order.
                let mut rest: Vec<u32> = Vec::new();
                let mut j: usize = 0;
                let mut removed = false;
                let ghost mut gm: int = 0;
                while j < self.pending[i].outstanding.len()
                    invariant
                        0 <= j <= os.len(),
                        i < self.pending@.len(),
                        *self == *old(self),
                        os == self.pending@[i as int].outstanding@,
                        !removed ==> rest@ == os.take(j as int) && forall|k: int|
                            0 <= k < j ==> os[k] != worker,
                        removed ==> 0 <= gm < j && os[gm] == worker && (forall|k: int|
                            0 <= k < gm ==> os[k] != worker) && rest@ == os.subrange(0, gm)
                            + os.subrange(gm + 1, j as int),
                    decreases os.len() - j,
                {
                    let w = self.pending[i].outstanding[j];
                    if w == worker && !removed {
                        removed = true;
                        proof {
                            gm = j as int;
                            assert(rest@ =~= os.subrange(0, gm) + os.subrange(
                                gm + 1,
                                j as int + 1,
                            ));
                        }
                    } else {
                        let ghost r0 = rest@;
                        rest.push(w);
                        proof {
                            if removed {
                                assert(rest@ =~= os.subrange(0, gm) + os.subrange(
                                    gm + 1,
                                    j as int + 1,
                                ));
                            } else {
                                assert(rest@ =~= os.take(j as int + 1));
                            }
                        }
                    }
                    j = j + 1;
                }
                if !removed {
                    proof {
                        if first_at(os, worker) >= 0 {
                            assert(os[first_at(os, worker)] != worker);
                        }
                    }
                    return Option::None;
                }
                proof {
                    assert(first_at(os, worker) == gm) by {
                        if first_at(os, worker) < 0 {
                            assert(os[gm] != worker);
                        } else if first_at(os, worker) < gm {
                            assert(os[first_at(os, worker)] != worker);
                        } else if first_at(os, worker) > gm {
                            assert(os[gm] != worker);
                        }
                    }
                    assert(rest@ =~= os.remove(gm));
                }
                let err = self.pending[i].error_seen || is_error;
                if rest.len() == 0 {
                    let client = self.pending[i].client;
                    let entry = self.pending.remove(i);
                    proof {
                        let nv = pendings_view(self.pending@);
                        assert(nv =~= ov.remove(i as int));
                        assert(os.len() == 1);
                        assert forall|k: int| 0 <= k < nv.len() implies (#[trigger] nv[k]).id
                            != id@ by {
                            if k < i {
                                assert(nv[k] == ov[k]);
                            } else {
                                assert(nv[k] == ov[k + 1]);
                            }
                        }
                        assert(!has_id(nv, id@));
                        assert forall|a: int, b: int|
                            0 <= a < b < nv.len() implies (#[trigger] nv[a]).id != (
                        #[trigger] nv[b]).id by {
                            let a0 = if a < i {
                                a
                            } else {
                                a + 1
                            };
                            let b0 = if b < i {
                                b
                            } else {
                                b + 1
                            };
                            assert(nv[a] == ov[a0] && nv[b] == ov[b0]);
                        }
                    }
                    let status = if err {
                        ConfigMessageStatus::Error
                    } else {
                        ConfigMessageStatus::Okay
                    };
                    return Option::Some((client, status));
                } else {
                    self.pending[i].outstanding = rest;
                    self.pending[i].error_seen = err;
                    proof {
                        let nv = pendings_view(self.pending@);
                        assert(forall|k: int|
                            0 <= k < nv.len() && k != i ==> #[trigger] nv[k] == ov[k]);
                        assert(nv[i as int] == (PendingV {
                            id: ov[i as int].id,
                            client: ov[i as int].client,
                            outstanding: ov[i as int].outstanding.remove(gm),
                            error_seen: ov[i as int].error_seen || is_error,
                        }));
                        assert(nv =~= spec_reply(ov, id@, worker, is_error).0);
                        assert forall|a: int, b: int|
                            0 <= a < b < nv.len() implies (#[trigger] nv[a]).id != (
                        #[trigger] nv[b]).id by {
                            assert(nv[a].id == ov[a].id && nv[b].id == ov[b].id);
                        }
                    }
                    return Option::None;
                }
            }
            i = i + 1;
        }
        proof {
            if idx_of(ov, id@) >= 0 {
                assert(ov[idx_of(ov, id@)].id != id@);
            }
        }
        Option::None
    }

    /// Drops a request past its deadline and names the client owed the
    /// `Error` answer; an unknown id changes nothing. The entry's removal
    /// is what releases the admin client, whether or not its workers ever
    /// reply.
    #[verifier::loop_isolation(false)]
    pub fn expire_request(&mut self, id: &str) -> (r: Option<u32>)
        requires
            old(self).wf(),
        ensures
            final(self).wf(),
            ({
                let ov = pendings_view(old(self).pending@);
                let i = idx_of(ov, id@);
                if i < 0 {
                    r is None && *final(self) == *old(self)
                } else {
                    r == Option::Some(ov[i].client) && pendings_view(final(self).pending@)
                        == ov.remove(i) && !has_id(pendings_view(final(self).pending@), id@)
                }
            }),
    {
        let ghost ov = pendings_view(self.pending@);
        proof {
            lemma_idx_of(ov, id@);
        }
        let mut i: usize = 0;
        while i < self.pending.len()
            invariant
                0 <= i <= self.pending@.len(),
                *self == *old(self),
                forall|k: int|
                    0 <= k < i ==> (#[trigger] pendings_view(self.pending@)[k]).id != id@,
            decreases self.pending@.len() - i,
        {
            if str_eq(self.pending[i].id.as_str(), id) {
                proof {
                    assert(ov[i as int].id == id@);
                    assert(idx_of(ov, id@) == i) by {
                        if idx_of(ov, id@) < 0 {
                            assert(ov[i as int].id != id@);
                        } else if idx_of(ov, id@) < i {
                            assert(ov[idx_of(ov, id@)].id != id@);
                        } else if idx_of(ov, id@) > i {
                            assert(ov[i as int].id != id@);
                        }
                    }
                }
                let client = self.pending[i].client;
                let entry = self.pending.remove(i);
                proof {
                    let nv = pendings_view(self.pending@);
                    assert(nv =~= ov.remove(i as int));
                    assert forall|k: int| 0 <= k < nv.len() implies (#[trigger] nv[k]).id
                        != id@ by {
                        if k < i {
                            assert(nv[k] == ov[k]);
                        } else {
                            assert(nv[k] == ov[k + 1]);
                        }
                    }
                    assert(!has_id(nv, id@));
                    assert forall|a: int, b: int|
                        0 <= a < b < nv.len() implies (#[trigger] nv[a]).id != (
                    #[trigger] nv[b]).id by {
                        let a0 = if a < i {
                            a
                        } else {
                            a + 1
                        };
                        let b0 = if b < i {
                            b
                        } else {
                            b + 1
                        };
                        assert(nv[a] == ov[a0] && nv[b] == ov[b0]);
                    }
                }
                return Option::Some(client);
            }
            i = i + 1;
        }
        proof {
            if idx_of(ov, id@) >= 0 {
                assert(ov[idx_of(ov, id@)].id != id@);
            }
        }
        Option::None
    }
}

/// How long a pending admin request may wait on its workers, in
/// milliseconds, before the router answers `Error` and drops the entry.
pub const REQUEST_DEADLINE_MS: u64 = 30000;

/// Whether a request opened at `opened_ms` has passed the deadline at
/// `now_ms`. A clock that moved backwards expires nothing.
pub fn request_expired(now_ms: u64, opened_ms: u64) -> (r: bool)
    ensures
        r == (opened_ms + REQUEST_DEADLINE_MS <= now_ms),
{
    now_ms >= opened_ms && now_ms - opened_ms >= REQUEST_DEADLINE_MS
}

/// Whether one worker answers to the request's filters and is running.
pub open spec fn winfo_matches(
    w: WorkerInfoV,
    proxy: Option<Seq<char>>,
    proxy_id: Option<u32>,
) -> bool {
    (match proxy {
        Option::Some(t) => w.tag == t,
        Option::None => true,
    }) && (match proxy_id {
        Option::Some(x) => w.id == x,
        Option::None => true,
    }) && w.run_state == RunState::Running
}

/// Exactly the ids of the running workers matching both filters, in
/// registry order.
pub open spec fn selected_ids(
    ws: Seq<WorkerInfo>,
    proxy: Option<Seq<char>>,
    proxy_id: Option<u32>,
) -> Seq<u32>
    decreases ws.len(),
{
    if ws.len() == 0 {
        Seq::empty()
    } else {
        let rest = selected_ids(ws.drop_last(), proxy, proxy_id);
        if winfo_matches(ws.last()@, proxy, proxy_id) {
            rest.push(ws.last()@.id)
        } else {
            rest
        }
    }
}

/// The tag filter's model.
pub open spec fn opt_str_view(p: Option<String>) -> Option<Seq<char>> {
    match p {
        Option::Some(t) => Option::Some(t@),
        Option::None => Option::None,
    }
}

/// The ids of the workers a request addresses: exactly the running ones
/// matching the optional tag and id filters, in registry order. An absent
/// filter addresses every running worker.
#[verifier::loop_isolation(false)]
pub fn select_workers(
    workers: &Vec<WorkerInfo>,
    proxy: &Option<String>,
    proxy_id: &Option<u32>,
) -> (r: Vec<u32>)
    ensures
        r@ == selected_ids(workers@, opt_str_view(*proxy), *proxy_id),
{
    let ghost pv = opt_str_view(*proxy);
    let ghost iv = *proxy_id;
    let mut r: Vec<u32> = Vec::new();
    let mut i: usize = 0;
    proof {
        assert(workers@.take(0) =~= Seq::<WorkerInfo>::empty());
    }
    while i < workers.len()
        invariant
            0 <= i <= workers@.len(),
            r@ == selected_ids(workers@.take(i as int), pv, iv),
        decreases workers@.len() - i,
    {
        proof {
            assert(workers@.take(i as int + 1).drop_last() =~= workers@.take(i as int));
            assert(workers@.take(i as int + 1).last() == workers@[i as int]);
        }
        let w = &workers[i];
        let tag_ok = match proxy {
            Option::Some(t) => str_eq(w.tag.as_str(), t.as_str()),
            Option::None => true,
        };
        let id_ok = match proxy_id {
            Option::Some(x) => w.id == *x,
            Option::None => true,
        };
        if tag_ok && id_ok && matches!(w.run_state, RunState::Running) {
            r.push(w.id);
        }
        i = i + 1;
    }
    proof {
        assert(workers@.take(workers@.len() as int) =~= workers@);
    }
    r
}

} // verus!

//! The upgrade handoff payload: the whole of what a replacement master
//! needs to take over without disturbing live workers — the persisted
//! state entries, each worker's description with its inherited channel
//! fd, and the admin listener fd.

use vstd::prelude::*;
use vstd::string::StringExecFns;

use crate::codec::{get_str, obj_get, str_eq};
use crate::data::{ProxyType, RunState, WorkerInfo, WorkerInfoV};
use crate::json::{
    json_parse, json_to_string, jview, jview_items, jview_members, lemma_jview_items_index,
    lemma_jview_members_index, penc, pjson, Json, JsonV,
};
use crate::store::{entry_json, entry_of_json, ProxyDeserializer, ProxyDeserializerV};

verus! {

/// A worker surviving the handoff: its description and the channel fd the
/// replacement master inherits.
pub struct WorkerHandle {
    pub info: WorkerInfo,
    pub fd: i32,
}

/// Model of a [`WorkerHandle`].
pub struct WorkerHandleV {
    pub info: WorkerInfoV,
    pub fd: i32,
}

impl View for WorkerHandle {
    type V = WorkerHandleV;

    open spec fn view(&self) -> WorkerHandleV {
        WorkerHandleV { info: self.info@, fd: self.fd }
    }
}

/// Everything the replacement master takes over.
pub struct UpgradeData {
    pub entries: Vec<ProxyDeserializer>,
    pub workers: Vec<WorkerHandle>,
    pub admin_fd: i32,
}

/// Model of an [`UpgradeData`].
pub struct UpgradeDataV {
    pub entries: Seq<ProxyDeserializerV>,
    pub workers: Seq<WorkerHandleV>,
    pub admin_fd: i32,
}

impl View for UpgradeData {
    type V = UpgradeDataV;

    open spec fn view(&self) -> UpgradeDataV {
        UpgradeDataV {
            entries: Seq::new(self.entries@.len(), |i: int| self.entries@[i]@),
            workers: Seq::new(self.workers@.len(), |i: int| self.workers@[i]@),
            admin_fd: self.admin_fd,
        }
    }
}

/// Wire shape of one surviving worker.
pub open spec fn whandle_json(w: WorkerHandleV) -> JsonV {
    JsonV::Obj(
        seq![
            ("id"@, JsonV::Num(w.info.id as int)),
            ("pid"@, JsonV::Num(w.info.pid as int)),
            ("tag"@, JsonV::Text(w.info.tag)),
            ("proxy_type"@, JsonV::Text(w.info.proxy_type.spec_wire_name())),
            ("run_state"@, JsonV::Text(w.info.run_state.spec_wire_name())),
            ("fd"@, JsonV::Num(w.fd as int)),
        ],
    )
}

/// A surviving worker read back from its wire shape.
pub open spec fn whandle_of_obj(o: Seq<(Seq<char>, JsonV)>) -> Option<WorkerHandleV> {
    match (
        crate::codec::get_num(o, "id"@),
        crate::codec::get_num(o, "pid"@),
        get_str(o, "tag"@),
        get_str(o, "proxy_type"@),
        get_str(o, "run_state"@),
        crate::codec::get_num(o, "fd"@),
    ) {
        (
            Option::Some(id),
            Option::Some(pid),
            Option::Some(tag),
            Option::Some(pt),
            Option::Some(rs),
            Option::Some(fd),
        ) => {
            let kind: Option<ProxyType> = if pt == "HTTP"@ {
                Option::Some(ProxyType::HTTP)
            } else if pt == "HTTPS"@ {
                Option::Some(ProxyType::HTTPS)
            } else if pt == "TCP"@ {
                Option::Some(ProxyType::TCP)
            } else {
                Option::None
            };
            let state: Option<RunState> = if rs == "Running"@ {
                Option::Some(RunState::Running)
            } else if rs == "Stopping"@ {
                Option::Some(RunState::Stopping)
            } else if rs == "Stopped"@ {
                Option::Some(RunState::Stopped)
            } else {
                Option::None
            };
            match (kind, state) {
                (Option::Some(kind), Option::Some(state)) => {
                    if 0 <= id < 0x1_0000_0000 && -0x8000_0000 <= pid < 0x8000_0000
                        && -0x8000_0000 <= fd < 0x8000_0000 {
                        Option::Some(
                            WorkerHandleV {
                                info: WorkerInfoV {
                                    id: id as u32,
                                    pid: pid as i32,
                                    tag: tag,
                                    proxy_type: kind,
                                    run_state: state,
                                },
                                fd: fd as i32,
                            },
                        )
                    } else {
                        Option::None
                    }
                },
                _ => Option::None,
            }
        },
        _ => Option::None,
    }
}

/// The surviving workers read back from an array of wire shapes.
pub open spec fn handles_of_items(a: Seq<JsonV>) -> Option<Seq<WorkerHandleV>>
    decreases a.len(),
{
    if a.len() == 0 {
        Option::Some(Seq::empty())
    } else {
        match a[0] {
            JsonV::Obj(o) => match whandle_of_obj(o) {
                Option::Some(w) => match handles_of_items(a.drop_first()) {
                    Option::Some(t) => Option::Some(seq![w] + t),
                    Option::None => Option::None,
                },
                Option::None => Option::None,
            },
            _ => Option::None,
        }
    }
}

/// The state entries read back from an array of wire shapes.
pub open spec fn upgrade_entries_of_items(a: Seq<JsonV>) -> Option<Seq<ProxyDeserializerV>>
    decreases a.len(),
{
    if a.len() == 0 {
        Option::Some(Seq::empty())
    } else {
        match entry_of_json(a[0]) {
            Result::Ok(e) => match upgrade_entries_of_items(a.drop_first()) {
                Option::Some(t) => Option::Some(seq![e] + t),
                Option::None => Option::None,
            },
            Result::Err(_) => Option::None,
        }
    }
}

/// Wire shape of the whole handoff payload.
pub open spec fn upgrade_json(u: UpgradeDataV) -> JsonV {
    JsonV::Obj(
        seq![
            (
                "state"@,
                JsonV::Arr(Seq::new(u.entries.len(), |i: int| entry_json(u.entries[i]))),
            ),
            (
                "workers"@,
                JsonV::Arr(Seq::new(u.workers.len(), |i: int| whandle_json(u.workers[i]))),
            ),
            ("admin_fd"@, JsonV::Num(u.admin_fd as int)),
        ],
    )
}

/// The handoff payload read back from its wire shape.
pub open spec fn upgrade_of_json(j: JsonV) -> Option<UpgradeDataV> {
    match j {
        JsonV::Obj(o) => {
            let es = match obj_get(o, "state"@) {
                Option::Some(JsonV::Arr(a)) => upgrade_entries_of_items(a),
                _ => Option::None,
            };
            let ws = match obj_get(o, "workers"@) {
                Option::Some(JsonV::Arr(a)) => handles_of_items(a),
                _ => Option::None,
            };
            let fd = crate::codec::get_num(o, "admin_fd"@);
            match (es, ws, fd) {
                (Option::Some(es), Option::Some(ws), Option::Some(fd)) => {
                    if -0x8000_0000 <= fd < 0x8000_0000 {
                        Option::Some(
                            UpgradeDataV { entries: es, workers: ws, admin_fd: fd as i32 },
                        )
                    } else {
                        Option::None
                    }
                },
                _ => Option::None,
            }
        },
        _ => Option::None,
    }
}

/// A surviving worker's wire shape reads back to the worker itself.
proof fn lemma_whandle_roundtrip(w: WorkerHandleV)
    ensures
        whandle_of_obj(whandle_json(w)->Obj_0) == Option::Some(w),
{
    reveal_strlit("id");
    reveal_strlit("pid");
    reveal_strlit("tag");
    reveal_strlit("proxy_type");
    reveal_strlit("run_state");
    reveal_strlit("fd");
    reveal_strlit("HTTP");
    reveal_strlit("HTTPS");
    reveal_strlit("TCP");
    reveal_strlit("Running");
    reveal_strlit("Stopping");
    reveal_strlit("Stopped");
    assert("id"@.len() == 2);
    assert("pid"@.len() == 3);
    assert("tag"@.len() == 3);
    assert("proxy_type"@.len() == 10);
    assert("run_state"@.len() == 9);
    assert("fd"@.len() == 2);
    assert("id"@[0] == 'i');
    assert("fd"@[0] == 'f');
    assert("pid"@[0] == 'p');
    assert("tag"@[0] == 't');
    assert("HTTP"@.len() == 4);
    assert("HTTPS"@.len() == 5);
    assert("TCP"@.len() == 3);
    assert("HTTP"@[0] == 'H');
    assert("TCP"@[0] == 'T');
    assert("Running"@.len() == 7);
    assert("Stopping"@.len() == 8);
    assert("Stopped"@.len() == 7);
    assert("Running"@[0] == 'R');
    assert("Stopped"@[0] == 'S');
    let o = whandle_json(w)->Obj_0;
    let e0 = o[0];
    let e1 = o[1];
    let e2 = o[2];
    let e3 = o[3];
    let e4 = o[4];
    let e5 = o[5];
    let t0: Seq<(Seq<char>, JsonV)> = o.skip(1);
    assert(t0.len() == 5);
    assert(t0[0] == e1);
    assert(t0[1] == e2);
    assert(t0[2] == e3);
    assert(t0[3] == e4);
    assert(t0[4] == e5);
    assert(crate::codec::keyless(t0, "id"@)) by {
        assert forall|i: int| 0 <= i < t0.len() implies (#[trigger] t0[i]).0 != "id"@ by {
            if i == 0 {
                assert(t0[i] == e1);
            } else if i == 1 {
                assert(t0[i] == e2);
            } else if i == 2 {
                assert(t0[i] == e3);
            } else if i == 3 {
                assert(t0[i] == e4);
            } else if i == 4 {
                assert(t0[i] == e5);
            }
        }
    }
    assert(o =~= o.take(0) + seq![e0] + t0);
    crate::codec::lemma_obj_get_hit(o.take(0), "id"@, e0.1, t0);
    let t1: Seq<(Seq<char>, JsonV)> = o.skip(2);
    assert(t1.len() == 4);
    assert(t1[0] == e2);
    assert(t1[1] == e3);
    assert(t1[2] == e4);
    assert(t1[3] == e5);
    assert(crate::codec::keyless(t1, "pid"@)) by {
        assert forall|i: int| 0 <= i < t1.len() implies (#[trigger] t1[i]).0 != "pid"@ by {
            if i == 0 {
                assert(t1[i] == e2);
            } else if i == 1 {
                assert(t1[i] == e3);
            } else if i == 2 {
                assert(t1[i] == e4);
            } else if i == 3 {
                assert(t1[i] == e5);
            }
        }
    }
    assert(o =~= o.take(1) + seq![e1] + t1);
    crate::codec::lemma_obj_get_hit(o.take(1), "pid"@, e1.1, t1);
    let t2: Seq<(Seq<char>, JsonV)> = o.skip(3);
    assert(t2.len() == 3);
    assert(t2[0] == e3);
    assert(t2[1] == e4);
    assert(t2[2] == e5);
    assert(crate::codec::keyless(t2, "tag"@)) by {
        assert forall|i: int| 0 <= i < t2.len() implies (#[trigger] t2[i]).0 != "tag"@ by {
            if i == 0 {
                assert(t2[i] == e3);
            } else if i == 1 {
                assert(t2[i] == e4);
            } else if i == 2 {
                assert(t2[i] == e5);
            }
        }
    }
    assert(o =~= o.take(2) + seq![e2] + t2);
    crate::codec::lemma_obj_get_hit(o.take(2), "tag"@, e2.1, t2);
    let t3: Seq<(Seq<char>, JsonV)> = o.skip(4);
    assert(t3.len() == 2);
    assert(t3[0] == e4);
    assert(t3[1] == e5);
    assert(crate::codec::keyless(t3, "proxy_type"@)) by {
        assert forall|i: int| 0 <= i < t3.len() implies (#[trigger] t3[i]).0 != "proxy_type"@ by {
            if i == 0 {
                assert(t3[i] == e4);
            } else if i == 1 {
                assert(t3[i] == e5);
            }
        }
    }
    assert(o =~= o.take(3) + seq![e3] + t3);
    crate::codec::lemma_obj_get_hit(o.take(3), "proxy_type"@, e3.1, t3);
    let t4: Seq<(Seq<char>, JsonV)> = o.skip(5);
    assert(t4.len() == 1);
    assert(t4[0] == e5);
    assert(crate::codec::keyless(t4, "run_state"@)) by {
        assert forall|i: int| 0 <= i < t4.len() implies (#[trigger] t4[i]).0 != "run_state"@ by {
            if i == 0 {
                assert(t4[i] == e5);
            }
        }
    }
    assert(o =~= o.take(4) + seq![e4] + t4);
    crate::codec::lemma_obj_get_hit(o.take(4), "run_state"@, e4.1, t4);
    let t5: Seq<(Seq<char>, JsonV)> = o.skip(6);
    assert(t5.len() == 0);
    assert(crate::codec::keyless(t5, "fd"@)) by {
        assert forall|i: int| 0 <= i < t5.len() implies (#[trigger] t5[i]).0 != "fd"@ by {
        }
    }
    assert(o =~= o.take(5) + seq![e5] + t5);
    crate::codec::lemma_obj_get_hit(o.take(5), "fd"@, e5.1, t5);
}

/// An array of surviving workers reads back to the workers themselves.
proof fn lemma_handles_items_roundtrip(ws: Seq<WorkerHandleV>)
    ensures
        handles_of_items(Seq::new(ws.len(), |i: int| whandle_json(ws[i]))) == Option::Some(ws),
    decreases ws.len(),
{
    let a = Seq::new(ws.len(), |i: int| whandle_json(ws[i]));
    if ws.len() > 0 {
        lemma_whandle_roundtrip(ws[0]);
        lemma_handles_items_roundtrip(ws.drop_first());
        assert(a.drop_first() =~= Seq::new(
            ws.drop_first().len(),
            |i: int| whandle_json(ws.drop_first()[i]),
        ));
        assert(seq![ws[0]] + ws.drop_first() =~= ws);
    } else {
        assert(a.len() == 0);
    }
}

/// An array of entry wire shapes reads back to the entries themselves.
proof fn lemma_upgrade_entries_roundtrip(es: Seq<ProxyDeserializerV>)
    ensures
        upgrade_entries_of_items(Seq::new(es.len(), |i: int| entry_json(es[i])))
            == Option::Some(es),
    decreases es.len(),
{
    let a = Seq::new(es.len(), |i: int| entry_json(es[i]));
    if es.len() > 0 {
        crate::store::lemma_entry_roundtrip(es[0]);
        lemma_upgrade_entries_roundtrip(es.drop_first());
        assert(a.drop_first() =~= Seq::new(
            es.drop_first().len(),
            |i: int| entry_json(es.drop_first()[i]),
        ));
        assert(seq![es[0]] + es.drop_first() =~= es);
    } else {
        assert(a.len() == 0);
    }
}

/// The handoff payload's wire shape reads back to the payload itself:
/// what the old master writes on the control socket, the new master reads
/// back unchanged.
pub proof fn lemma_upgrade_roundtrip(u: UpgradeDataV)
    ensures
        upgrade_of_json(upgrade_json(u)) == Option::Some(u),
{
    reveal_strlit("state");
    reveal_strlit("workers");
    reveal_strlit("admin_fd");
    assert("state"@.len() == 5);
    assert("workers"@.len() == 7);
    assert("admin_fd"@.len() == 8);
    let o = upgrade_json(u)->Obj_0;
    let e0 = o[0];
    let e1 = o[1];
    let e2 = o[2];
    let t0 = seq![e1, e2];
    assert(t0[0] == e1);
    assert(t0[1] == e2);
    assert(crate::codec::keyless(t0, "state"@)) by {
        assert forall|i: int| 0 <= i < t0.len() implies (#[trigger] t0[i]).0 != "state"@ by {
            if i == 0 {
                assert(t0[i] == e1);
            } else {
                assert(t0[i] == e2);
            }
        }
    }
    assert(o =~= Seq::empty() + seq![e0] + t0);
    crate::codec::lemma_obj_get_hit(Seq::empty(), "state"@, e0.1, t0);
    let t1 = seq![e2];
    assert(t1[0] == e2);
    assert(crate::codec::keyless(t1, "workers"@)) by {
        assert forall|i: int| 0 <= i < t1.len() implies (#[trigger] t1[i]).0 != "workers"@ by {
            assert(t1[i] == e2);
        }
    }
    assert(o =~= seq![e0] + seq![e1] + t1);
    crate::codec::lemma_obj_get_hit(seq![e0], "workers"@, e1.1, t1);
    let t2: Seq<(Seq<char>, JsonV)> = Seq::empty();
    assert(crate::codec::keyless(t2, "admin_fd"@));
    assert(o =~= seq![e0, e1] + seq![e2] + t2);
    crate::codec::lemma_obj_get_hit(seq![e0, e1], "admin_fd"@, e2.1, t2);
    lemma_upgrade_entries_roundtrip(u.entries);
    lemma_handles_items_roundtrip(u.workers);
}

/// A surviving worker as a JSON value.
fn whandle_to_json(w: &WorkerHandle) -> (r: Json)
    ensures
        jview(r) == whandle_json(w@),
{
    let mut m: Vec<(String, Json)> = Vec::new();
    m.push((String::from_str("id"), Json::Num(w.info.id as i64)));
    m.push((String::from_str("pid"), Json::Num(w.info.pid as i64)));
    m.push((String::from_str("tag"), Json::Text(w.info.tag.clone())));
    m.push(
        (
            String::from_str("proxy_type"),
            Json::Text(String::from_str(w.info.proxy_type.wire_name())),
        ),
    );
    let rs = match w.info.run_state {
        RunState::Running => "Running",
        RunState::Stopping => "Stopping",
        RunState::Stopped => "Stopped",
    };
    m.push((String::from_str("run_state"), Json::Text(String::from_str(rs))));
    m.push((String::from_str("fd"), Json::Num(w.fd as i64)));
    let r = Json::Obj(m);
    proof {
        let mv = r->Obj_0@;
        lemma_jview_members_index(mv, 0);
        assert(jview_members(mv, 0) =~= whandle_json(w@)->Obj_0);
    }
    r
}

/// Wire text of the handoff payload, the one frame the old master writes
/// on the control socket.
pub fn encode_upgrade_data(u: &UpgradeData) -> (r: String)
    ensures
        r@ == penc(upgrade_json(u@)),
{
    let mut es: Vec<Json> = Vec::new();
    let mut i: usize = 0;
    while i < u.entries.len()
        invariant
            0 <= i <= u.entries@.len(),
            es@.len() == i,
            forall|k: int|
                0 <= k < i ==> jview(#[trigger] es@[k]) == entry_json(u.entries@[k]@),
        decreases u.entries@.len() - i,
    {
        let ej = crate::store::entry_to_json(&u.entries[i]);
        es.push(ej);
        i = i + 1;
    }
    let mut ws: Vec<Json> = Vec::new();
    let mut i: usize = 0;
    while i < u.workers.len()
        invariant
            0 <= i <= u.workers@.len(),
            ws@.len() == i,
            forall|k: int|
                0 <= k < i ==> jview(#[trigger] ws@[k]) == whandle_json(u.workers@[k]@),
        decreases u.workers@.len() - i,
    {
        let wj = whandle_to_json(&u.workers[i]);
        ws.push(wj);
        i = i + 1;
    }
    let ea = Json::Arr(es);
    let wa = Json::Arr(ws);
    proof {
        lemma_jview_items_index(ea->Arr_0@, 0);
        lemma_jview_items_index(wa->Arr_0@, 0);
        assert(jview_items(ea->Arr_0@, 0) =~= Seq::new(
            u@.entries.len(),
            |i: int| entry_json(u@.entries[i]),
        ));
        assert(jview_items(wa->Arr_0@, 0) =~= Seq::new(
            u@.workers.len(),
            |i: int| whandle_json(u@.workers[i]),
        ));
    }
    let mut mems: Vec<(String, Json)> = Vec::new();
    mems.push((String::from_str("state"), ea));
    mems.push((String::from_str("workers"), wa));
    mems.push((String::from_str("admin_fd"), Json::Num(u.admin_fd as i64)));
    let j = Json::Obj(mems);
    proof {
        let mv = j->Obj_0@;
        lemma_jview_members_index(mv, 0);
        assert(jview_members(mv, 0) =~= upgrade_json(u@)->Obj_0);
    }
    json_to_string(&j)
}

/// A surviving worker read from its JSON members, as [`whandle_of_obj`]
/// reads it.
fn whandle_of(o: &Vec<(String, Json)>) -> (r: Option<WorkerHandle>)
    ensures
        match whandle_of_obj(jview_members(o@, 0)) {
            Option::None => r is None,
            Option::Some(wv) => r matches Option::Some(w) && w@ == wv,
        },
{
    let id = crate::codec::get_num_field(o, "id");
    let pid = crate::codec::get_num_field(o, "pid");
    let tag = crate::codec::get_str_field(o, "tag");
    let pt = crate::codec::get_str_field(o, "proxy_type");
    let rs = crate::codec::get_str_field(o, "run_state");
    let fd = crate::codec::get_num_field(o, "fd");
    match (id, pid, tag, pt, rs, fd) {
        (
            Option::Some(id),
            Option::Some(pid),
            Option::Some(tag),
            Option::Some(pt),
            Option::Some(rs),
            Option::Some(fd),
        ) => {
            let kind = if str_eq(pt.as_str(), "HTTP") {
                ProxyType::HTTP
            } else if str_eq(pt.as_str(), "HTTPS") {
                ProxyType::HTTPS
            } else if str_eq(pt.as_str(), "TCP") {
                ProxyType::TCP
            } else {
                return Option::None;
            };
            let state = if str_eq(rs.as_str(), "Running") {
                RunState::Running
            } else if str_eq(rs.as_str(), "Stopping") {
                RunState::Stopping
            } else if str_eq(rs.as_str(), "Stopped") {
                RunState::Stopped
            } else {
                return Option::None;
            };
            if 0 <= id && id < 0x1_0000_0000i64 && -0x8000_0000i64 <= pid && pid
                < 0x8000_0000i64 && -0x8000_0000i64 <= fd && fd < 0x8000_0000i64 {
                Option::Some(
                    WorkerHandle {
                        info: WorkerInfo {
                            id: id as u32,
                            pid: pid as i32,
                            tag,
                            proxy_type: kind,
                            run_state: state,
                        },
                        fd: fd as i32,
                    },
                )
            } else {
                Option::None
            }
        },
        _ => Option::None,
    }
}

/// The surviving workers of a wire array, as [`handles_of_items`] reads
/// them.
fn handles_of(a: &Vec<Json>, i: usize) -> (r: Option<Vec<WorkerHandle>>)
    requires
        i <= a@.len(),
    ensures
        match handles_of_items(jview_items(a@, 0).skip(i as int)) {
            Option::None => r is None,
            Option::Some(ws) => r matches Option::Some(v) && Seq::new(
                v@.len(),
                |k: int| v@[k]@,
            ) == ws,
        },
    decreases a@.len() - i,
{
    proof {
        lemma_jview_items_index(a@, 0);
        assert(jview_items(a@, 0).skip(i as int).len() == a@.len() - i);
    }
    if i == a.len() {
        let out: Vec<WorkerHandle> = Vec::new();
        proof {
            assert(jview_items(a@, 0).skip(i as int) =~= Seq::<JsonV>::empty());
            assert(Seq::new(out@.len(), |k: int| out@[k]@) =~= Seq::<WorkerHandleV>::empty());
        }
        return Option::Some(out);
    }
    let ghost suf = jview_items(a@, 0).skip(i as int);
    proof {
        assert(suf[0] == jview(a@[i as int]));
        assert(suf.drop_first() =~= jview_items(a@, 0).skip(i as int + 1));
    }
    match &a[i] {
        Json::Obj(o) => match whandle_of(o) {
            Option::Some(w) => match handles_of(a, i + 1) {
                Option::Some(t) => {
                    let ghost t0 = t@;
                    let mut out = t;
                    out.insert(0, w);
                    proof {
                        assert(out@.drop_first() =~= t0);
                        assert(Seq::new(out@.len(), |k: int| out@[k]@) =~= seq![out@[0]@]
                            + Seq::new(t0.len(), |k: int| t0[k]@));
                    }
                    Option::Some(out)
                },
                Option::None => Option::None,
            },
            Option::None => Option::None,
        },
        _ => Option::None,
    }
}

/// The state entries of a wire array, as [`upgrade_entries_of_items`]
/// reads them.
fn upgrade_entries_of(a: &Vec<Json>, i: usize) -> (r: Option<Vec<ProxyDeserializer>>)
    requires
        i <= a@.len(),
    ensures
        match upgrade_entries_of_items(jview_items(a@, 0).skip(i as int)) {
            Option::None => r is None,
            Option::Some(es) => r matches Option::Some(v) && Seq::new(
                v@.len(),
                |k: int| v@[k]@,
            ) == es,
        },
    decreases a@.len() - i,
{
    proof {
        lemma_jview_items_index(a@, 0);
        assert(jview_items(a@, 0).skip(i as int).len() == a@.len() - i);
    }
    if i == a.len() {
        let out: Vec<ProxyDeserializer> = Vec::new();
        proof {
            assert(jview_items(a@, 0).skip(i as int) =~= Seq::<JsonV>::empty());
            assert(Seq::new(out@.len(), |k: int| out@[k]@) =~= Seq::<
                ProxyDeserializerV,
            >::empty());
        }
        return Option::Some(out);
    }
    let ghost suf = jview_items(a@, 0).skip(i as int);
    proof {
        assert(suf[0] == jview(a@[i as int]));
        assert(suf.drop_first() =~= jview_items(a@, 0).skip(i as int + 1));
    }
    match crate::store::entry_of_value(&a[i]) {
        Result::Ok(e) => match upgrade_entries_of(a, i + 1) {
            Option::Some(t) => {
                let ghost t0 = t@;
                let mut out = t;
                out.insert(0, e);
                proof {
                    assert(out@.drop_first() =~= t0);
                    assert(Seq::new(out@.len(), |k: int| out@[k]@) =~= seq![out@[0]@]
                        + Seq::new(t0.len(), |k: int| t0[k]@));
                }
                Option::Some(out)
            },
            Option::None => Option::None,
        },
        Result::Err(_) => Option::None,
    }
}

/// The handoff payload read from its wire text, as [`upgrade_of_json`]
/// reads it after [`pjson`].
pub fn parse_upgrade_data(s: &str) -> (r: Option<UpgradeData>)
    ensures
        match pjson(s@) {
            Option::None => r is None,
            Option::Some(jv) => match upgrade_of_json(jv) {
                Option::None => r is None,
                Option::Some(uv) => r matches Option::Some(u) && u@ == uv,
            },
        },
{
    let j = match json_parse(s) {
        Option::None => {
            return Option::None;
        },
        Option::Some(j) => j,
    };
    let o = match &j {
        Json::Obj(o) => o,
        _ => {
            return Option::None;
        },
    };
    let es: Vec<ProxyDeserializer> = match crate::codec::obj_value(o, "state") {
        Option::Some(Json::Arr(a)) => {
            proof {
                assert(jview_items(a@, 0).skip(0) =~= jview_items(a@, 0));
            }
            match upgrade_entries_of(a, 0) {
                Option::Some(v) => v,
                Option::None => {
                    return Option::None;
                },
            }
        },
        _ => {
            return Option::None;
        },
    };
    let ws: Vec<WorkerHandle> = match crate::codec::obj_value(o, "workers") {
        Option::Some(Json::Arr(a)) => {
            proof {
                assert(jview_items(a@, 0).skip(0) =~= jview_items(a@, 0));
            }
            match handles_of(a, 0) {
                Option::Some(v) => v,
                Option::None => {
                    return Option::None;
                },
            }
        },
        _ => {
            return Option::None;
        },
    };
    let fd = match crate::codec::get_num_field(o, "admin_fd") {
        Option::Some(fd) => fd,
        Option::None => {
            return Option::None;
        },
    };
    if -0x8000_0000i64 <= fd && fd < 0x8000_0000i64 {
        let u = UpgradeData { entries: es, workers: ws, admin_fd: fd as i32 };
        Option::Some(u)
    } else {
        Option::None
    }
}

} // verus!

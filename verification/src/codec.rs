//! Wire shapes of the admin protocol: how requests, answers, orders and
//! worker replies look as JSON, and how a JSON value is read back into a
//! message. The text layer itself lives in [`crate::json`].

use vstd::prelude::*;
use vstd::string::StringExecFns;
use vstd::string::StrSliceExecFns;

use crate::data::{
    AnswerData, AnswerDataV, ConfigCommand, ConfigCommandV, ConfigMessage, ConfigMessageAnswer,
    ConfigMessageAnswerV, ConfigMessageStatus, ConfigMessageV, HttpFront, HttpFrontV, Instance,
    InstanceV, Order, OrderV, ProtocolError, ProtocolErrorV, RunState, ServerMessage,
    ServerMessageV, WorkerInfoV,
};
use crate::json::{
    jview, jview_items, jview_members, json_parse, json_to_string, lemma_jview_items_index,
    lemma_jview_members_index, penc, pjson, Json, JsonV,
};

verus! {

broadcast use vstd::string::group_string_axioms;

/// The member of `o` under `key`: the last occurrence wins, as a streaming
/// reader that overwrites earlier fields behaves.
pub open spec fn obj_get(o: Seq<(Seq<char>, JsonV)>, key: Seq<char>) -> Option<JsonV>
    decreases o.len(),
{
    if o.len() == 0 {
        Option::None
    } else if o.last().0 == key {
        Option::Some(o.last().1)
    } else {
        obj_get(o.drop_last(), key)
    }
}

/// The string under `key`; a member of another kind counts as absent.
pub open spec fn get_str(o: Seq<(Seq<char>, JsonV)>, key: Seq<char>) -> Option<Seq<char>> {
    match obj_get(o, key) {
        Option::Some(JsonV::Text(s)) => Option::Some(s),
        _ => Option::None,
    }
}

/// The number under `key`; a member of another kind counts as absent.
pub open spec fn get_num(o: Seq<(Seq<char>, JsonV)>, key: Seq<char>) -> Option<int> {
    match obj_get(o, key) {
        Option::Some(JsonV::Num(n)) => Option::Some(n),
        _ => Option::None,
    }
}

/// The object under `key`; a member of another kind counts as absent.
pub open spec fn get_obj(o: Seq<(Seq<char>, JsonV)>, key: Seq<char>) -> Option<
    Seq<(Seq<char>, JsonV)>,
> {
    match obj_get(o, key) {
        Option::Some(JsonV::Obj(m)) => Option::Some(m),
        _ => Option::None,
    }
}

/// Wire shape of a front.
pub open spec fn front_json(f: HttpFrontV) -> JsonV {
    JsonV::Obj(
        seq![
            ("app_id"@, JsonV::Text(f.app_id)),
            ("hostname"@, JsonV::Text(f.hostname)),
            ("path_begin"@, JsonV::Text(f.path_begin)),
        ],
    )
}

/// Wire shape of a backend instance.
pub open spec fn instance_json(i: InstanceV) -> JsonV {
    JsonV::Obj(
        seq![
            ("app_id"@, JsonV::Text(i.app_id)),
            ("ip_address"@, JsonV::Text(i.ip_address)),
            ("port"@, JsonV::Num(i.port as int)),
        ],
    )
}

/// Wire shape of an order: a `type` tag and, where the order carries a
/// payload, a `data` member.
pub open spec fn order_json(o: OrderV) -> JsonV {
    match o {
        OrderV::AddHttpFront(f) => JsonV::Obj(
            seq![("type"@, JsonV::Text("ADD_HTTP_FRONT"@)), ("data"@, front_json(f))],
        ),
        OrderV::RemoveHttpFront(f) => JsonV::Obj(
            seq![("type"@, JsonV::Text("REMOVE_HTTP_FRONT"@)), ("data"@, front_json(f))],
        ),
        OrderV::AddInstance(i) => JsonV::Obj(
            seq![("type"@, JsonV::Text("ADD_INSTANCE"@)), ("data"@, instance_json(i))],
        ),
        OrderV::RemoveInstance(i) => JsonV::Obj(
            seq![("type"@, JsonV::Text("REMOVE_INSTANCE"@)), ("data"@, instance_json(i))],
        ),
        OrderV::AddCertificate(c) => JsonV::Obj(
            seq![("type"@, JsonV::Text("ADD_CERTIFICATE"@)), ("data"@, JsonV::Text(c))],
        ),
        OrderV::RemoveCertificate(c) => JsonV::Obj(
            seq![("type"@, JsonV::Text("REMOVE_CERTIFICATE"@)), ("data"@, JsonV::Text(c))],
        ),
        OrderV::SoftStop => JsonV::Obj(seq![("type"@, JsonV::Text("SOFT_STOP"@))]),
        OrderV::HardStop => JsonV::Obj(seq![("type"@, JsonV::Text("HARD_STOP"@))]),
        OrderV::Status => JsonV::Obj(seq![("type"@, JsonV::Text("STATUS"@))]),
    }
}

/// A front read back from its wire shape.
pub open spec fn front_of_obj(o: Seq<(Seq<char>, JsonV)>) -> Option<HttpFrontV> {
    match (get_str(o, "app_id"@), get_str(o, "hostname"@), get_str(o, "path_begin"@)) {
        (Option::Some(a), Option::Some(h), Option::Some(p)) => Option::Some(
            HttpFrontV { app_id: a, hostname: h, path_begin: p },
        ),
        _ => Option::None,
    }
}

/// A backend instance read back from its wire shape.
pub open spec fn instance_of_obj(o: Seq<(Seq<char>, JsonV)>) -> Option<InstanceV> {
    match (get_str(o, "app_id"@), get_str(o, "ip_address"@), get_num(o, "port"@)) {
        (Option::Some(a), Option::Some(ip), Option::Some(p)) => {
            if 0 <= p < 65536 {
                Option::Some(InstanceV { app_id: a, ip_address: ip, port: p as u16 })
            } else {
                Option::None
            }
        },
        _ => Option::None,
    }
}

/// An order read back from its wire shape; `None` when the tag is unknown or
/// the payload does not fit it.
pub open spec fn order_of_json(j: JsonV) -> Option<OrderV> {
    match j {
        JsonV::Obj(o) => match get_str(o, "type"@) {
            Option::None => Option::None,
            Option::Some(t) => {
                if t == "ADD_HTTP_FRONT"@ {
                    match get_obj(o, "data"@) {
                        Option::Some(d) => match front_of_obj(d) {
                            Option::Some(f) => Option::Some(OrderV::AddHttpFront(f)),
                            Option::None => Option::None,
                        },
                        Option::None => Option::None,
                    }
                } else if t == "REMOVE_HTTP_FRONT"@ {
                    match get_obj(o, "data"@) {
                        Option::Some(d) => match front_of_obj(d) {
                            Option::Some(f) => Option::Some(OrderV::RemoveHttpFront(f)),
                            Option::None => Option::None,
                        },
                        Option::None => Option::None,
                    }
                } else if t == "ADD_INSTANCE"@ {
                    match get_obj(o, "data"@) {
                        Option::Some(d) => match instance_of_obj(d) {
                            Option::Some(i) => Option::Some(OrderV::AddInstance(i)),
                            Option::None => Option::None,
                        },
                        Option::None => Option::None,
                    }
                } else if t == "REMOVE_INSTANCE"@ {
                    match get_obj(o, "data"@) {
                        Option::Some(d) => match instance_of_obj(d) {
                            Option::Some(i) => Option::Some(OrderV::RemoveInstance(i)),
                            Option::None => Option::None,
                        },
                        Option::None => Option::None,
                    }
                } else if t == "ADD_CERTIFICATE"@ {
                    match get_str(o, "data"@) {
                        Option::Some(c) => Option::Some(OrderV::AddCertificate(c)),
                        Option::None => Option::None,
                    }
                } else if t == "REMOVE_CERTIFICATE"@ {
                    match get_str(o, "data"@) {
                        Option::Some(c) => Option::Some(OrderV::RemoveCertificate(c)),
                        Option::None => Option::None,
                    }
                } else if t == "SOFT_STOP"@ {
                    Option::Some(OrderV::SoftStop)
                } else if t == "HARD_STOP"@ {
                    Option::Some(OrderV::HardStop)
                } else if t == "STATUS"@ {
                    Option::Some(OrderV::Status)
                } else {
                    Option::None
                }
            },
        },
        _ => Option::None,
    }
}

/// The member names an admin request may carry: anything else is refused,
/// as a closed field reader behaves.
pub open spec fn msg_key_ok(k: Seq<char>) -> bool {
    k == "id"@ || k == "version"@ || k == "proxy"@ || k == "proxy_id"@ || k == "type"@ || k
        == "data"@
}

/// Every member of `o` carries an admin-request member name.
pub open spec fn msg_keys_ok(o: Seq<(Seq<char>, JsonV)>) -> bool {
    forall|i: int| 0 <= i < o.len() ==> msg_key_ok((#[trigger] o[i]).0)
}

/// The tag filter: absent, a string, or refused.
pub open spec fn msg_proxy_of(o: Seq<(Seq<char>, JsonV)>) -> Result<Option<Seq<char>>, ()> {
    match obj_get(o, "proxy"@) {
        Option::None => Result::Ok(Option::None),
        Option::Some(JsonV::Text(p)) => Result::Ok(Option::Some(p)),
        Option::Some(_) => Result::Err(()),
    }
}

/// The worker-id filter: absent, a number in the id range, or refused.
pub open spec fn msg_proxy_id_of(o: Seq<(Seq<char>, JsonV)>) -> Result<Option<u32>, ()> {
    match obj_get(o, "proxy_id"@) {
        Option::None => Result::Ok(Option::None),
        Option::Some(JsonV::Num(x)) => if 0 <= x < 0x1_0000_0000 {
            Result::Ok(Option::Some(x as u32))
        } else {
            Result::Err(())
        },
        Option::Some(_) => Result::Err(()),
    }
}

/// Wire shape of an admin request: `id`, `version`, the optional filters,
/// then the command as a `type` tag with its `data`.
pub open spec fn msg_json(m: ConfigMessageV) -> JsonV {
    JsonV::Obj(
        seq![("id"@, JsonV::Text(m.id)), ("version"@, JsonV::Num(m.version as int))] + (
        match m.proxy {
            Option::Some(p) => seq![("proxy"@, JsonV::Text(p))],
            Option::None => Seq::empty(),
        }) + (match m.proxy_id {
            Option::Some(x) => seq![("proxy_id"@, JsonV::Num(x as int))],
            Option::None => Seq::empty(),
        }) + (match m.data {
            ConfigCommandV::ProxyConfiguration(o) => seq![
                ("type"@, JsonV::Text("PROXY"@)),
                ("data"@, order_json(o)),
            ],
            ConfigCommandV::SaveState(p) => seq![
                ("type"@, JsonV::Text("SAVE_STATE"@)),
                ("data"@, JsonV::Obj(seq![("path"@, JsonV::Text(p))])),
            ],
            ConfigCommandV::LoadState(p) => seq![
                ("type"@, JsonV::Text("LOAD_STATE"@)),
                ("data"@, JsonV::Obj(seq![("path"@, JsonV::Text(p))])),
            ],
            ConfigCommandV::DumpState => seq![("type"@, JsonV::Text("DUMP_STATE"@))],
            ConfigCommandV::ListWorkers => seq![("type"@, JsonV::Text("LIST_WORKERS"@))],
            ConfigCommandV::LaunchWorker(t) => seq![
                ("type"@, JsonV::Text("LAUNCH_WORKER"@)),
                ("data"@, JsonV::Text(t)),
            ],
            ConfigCommandV::UpgradeMaster => seq![("type"@, JsonV::Text("UPGRADE_MASTER"@))],
        }),
    )
}

/// An admin request read back from a JSON value: which message it is, or
/// which protocol error the reader answers.
pub open spec fn msg_of_json(j: JsonV) -> Result<ConfigMessageV, ProtocolErrorV> {
    match j {
        JsonV::Obj(o) => if !msg_keys_ok(o) {
            Result::Err(ProtocolErrorV::Decode)
        } else {
            match get_str(o, "type"@) {
                Option::None => Result::Err(ProtocolErrorV::MissingField("type"@)),
                Option::Some(t) => match get_str(o, "id"@) {
                    Option::None => Result::Err(ProtocolErrorV::MissingField("id"@)),
                    Option::Some(id) => match get_num(o, "version"@) {
                        Option::None => Result::Err(ProtocolErrorV::MissingField("version"@)),
                        Option::Some(v) => {
                            if v != crate::PROTOCOL_VERSION {
                                Result::Err(ProtocolErrorV::BadVersion)
                            } else {
                                match (msg_proxy_of(o), msg_proxy_id_of(o)) {
                                    (Result::Ok(proxy), Result::Ok(proxy_id)) => {
                                        match msg_command_of(o, t) {
                                            Result::Ok(cmd) => Result::Ok(
                                                ConfigMessageV {
                                                    id: id,
                                                    version: crate::PROTOCOL_VERSION,
                                                    data: cmd,
                                                    proxy: proxy,
                                                    proxy_id: proxy_id,
                                                },
                                            ),
                                            Result::Err(e) => Result::Err(e),
                                        }
                                    },
                                    _ => Result::Err(ProtocolErrorV::Decode),
                                }
                            }
                        },
                    },
                },
            }
        },
        _ => Result::Err(ProtocolErrorV::Decode),
    }
}

/// The command named by the `type` tag `t` with its `data` member in `o`.
pub open spec fn msg_command_of(o: Seq<(Seq<char>, JsonV)>, t: Seq<char>) -> Result<
    ConfigCommandV,
    ProtocolErrorV,
> {
    if t == "PROXY"@ {
        match obj_get(o, "data"@) {
            Option::None => Result::Err(ProtocolErrorV::MissingField("data"@)),
            Option::Some(d) => match order_of_json(d) {
                Option::Some(ord) => Result::Ok(ConfigCommandV::ProxyConfiguration(ord)),
                Option::None => Result::Err(ProtocolErrorV::Decode),
            },
        }
    } else if t == "SAVE_STATE"@ {
        match obj_get(o, "data"@) {
            Option::None => Result::Err(ProtocolErrorV::MissingField("data"@)),
            Option::Some(d) => match d {
                JsonV::Obj(dm) => match get_str(dm, "path"@) {
                    Option::Some(p) => Result::Ok(ConfigCommandV::SaveState(p)),
                    Option::None => Result::Err(ProtocolErrorV::Decode),
                },
                _ => Result::Err(ProtocolErrorV::Decode),
            },
        }
    } else if t == "LOAD_STATE"@ {
        match obj_get(o, "data"@) {
            Option::None => Result::Err(ProtocolErrorV::MissingField("data"@)),
            Option::Some(d) => match d {
                JsonV::Obj(dm) => match get_str(dm, "path"@) {
                    Option::Some(p) => Result::Ok(ConfigCommandV::LoadState(p)),
                    Option::None => Result::Err(ProtocolErrorV::Decode),
                },
                _ => Result::Err(ProtocolErrorV::Decode),
            },
        }
    } else if t == "DUMP_STATE"@ {
        Result::Ok(ConfigCommandV::DumpState)
    } else if t == "LIST_WORKERS"@ {
        Result::Ok(ConfigCommandV::ListWorkers)
    } else if t == "LAUNCH_WORKER"@ {
        match obj_get(o, "data"@) {
            Option::None => Result::Err(ProtocolErrorV::MissingField("data"@)),
            Option::Some(d) => match d {
                JsonV::Text(tag) => Result::Ok(ConfigCommandV::LaunchWorker(tag)),
                _ => Result::Err(ProtocolErrorV::Decode),
            },
        }
    } else if t == "UPGRADE_MASTER"@ {
        Result::Ok(ConfigCommandV::UpgradeMaster)
    } else {
        Result::Err(ProtocolErrorV::UnrecognizedCommand)
    }
}

/// Wire shape of an order in flight to a worker: the order under its
/// admin request's correlation id.
pub open spec fn order_envelope_json(id: Seq<char>, o: OrderV) -> JsonV {
    JsonV::Obj(seq![("id"@, JsonV::Text(id)), ("data"@, order_json(o))])
}

/// An enveloped order read back: the correlation id and the order, or
/// nothing where either is missing or malformed.
pub open spec fn envelope_of_json(j: JsonV) -> Option<(Seq<char>, OrderV)> {
    match j {
        JsonV::Obj(o) => match (get_str(o, "id"@), obj_get(o, "data"@)) {
            (Option::Some(id), Option::Some(d)) => match order_of_json(d) {
                Option::Some(ord) => Option::Some((id, ord)),
                Option::None => Option::None,
            },
            _ => Option::None,
        },
        _ => Option::None,
    }
}

/// An enveloped order's wire shape reads back to the id and order.
pub proof fn lemma_envelope_roundtrip(id: Seq<char>, o: OrderV)
    ensures
        envelope_of_json(order_envelope_json(id, o)) == Option::Some((id, o)),
{
    reveal_strlit("id");
    reveal_strlit("data");
    assert("id"@.len() == 2);
    assert("data"@.len() == 4);
    let m = order_envelope_json(id, o)->Obj_0;
    let e0 = m[0];
    let e1 = m[1];
    let t1 = seq![e1];
    assert(t1[0] == e1);
    lemma_keyless_small(t1, "id"@);
    assert(m =~= Seq::empty() + seq![e0] + t1);
    lemma_obj_get_hit(Seq::empty(), "id"@, JsonV::Text(id), t1);
    let t2: Seq<(Seq<char>, JsonV)> = Seq::empty();
    lemma_keyless_small(t2, "data"@);
    assert(m =~= seq![e0] + seq![e1] + t2);
    lemma_obj_get_hit(seq![e0], "data"@, order_json(o), t2);
    lemma_order_roundtrip(o);
}

/// Wire text of an enveloped order, as the master sends it to a worker.
pub fn encode_order_envelope(id: &str, o: &Order) -> (r: String)
    ensures
        r@ == penc(order_envelope_json(id@, o@)),
{
    let mut mems: Vec<(String, Json)> = Vec::new();
    mems.push((String::from_str("id"), Json::Text(String::from_str(id))));
    mems.push((String::from_str("data"), order_to_json(o)));
    let j = Json::Obj(mems);
    proof {
        let mv = j->Obj_0@;
        lemma_jview_members_index(mv, 0);
        assert(jview_members(mv, 0) =~= order_envelope_json(id@, o@)->Obj_0);
    }
    json_to_string(&j)
}

/// An enveloped order read from its wire text, as [`envelope_of_json`]
/// reads it after [`pjson`].
pub fn parse_order_envelope(s: &str) -> (r: Option<(String, Order)>)
    ensures
        match pjson(s@) {
            Option::None => r is None,
            Option::Some(jv) => match envelope_of_json(jv) {
                Option::None => r is None,
                Option::Some(ev) => r matches Option::Some(x) && x.0@ == ev.0 && x.1@ == ev.1,
            },
        },
{
    let j = match json_parse(s) {
        Option::None => {
            return Option::None;
        },
        Option::Some(j) => j,
    };
    let o = match &j {
        Json::Obj(o) => o,
        _ => {
            return Option::None;
        },
    };
    let id = match get_str_field(o, "id") {
        Option::Some(id) => id,
        Option::None => {
            return Option::None;
        },
    };
    let d = match obj_value(o, "data") {
        Option::Some(d) => d,
        Option::None => {
            return Option::None;
        },
    };
    match order_of(d) {
        Option::Some(ord) => Option::Some((id, ord)),
        Option::None => Option::None,
    }
}

/// Wire shape of one worker line in a `ListWorkers` answer.
pub open spec fn winfo_json(w: WorkerInfoV) -> JsonV {
    JsonV::Obj(
        seq![
            ("id"@, JsonV::Num(w.id as int)),
            ("pid"@, JsonV::Num(w.pid as int)),
            ("tag"@, JsonV::Text(w.tag)),
            ("proxy_type"@, JsonV::Text(w.proxy_type.spec_wire_name())),
            ("run_state"@, JsonV::Text(w.run_state.spec_wire_name())),
        ],
    )
}

/// Wire shapes of a worker listing.
pub open spec fn winfos_json(ws: Seq<WorkerInfoV>) -> Seq<JsonV> {
    Seq::new(ws.len(), |i: int| winfo_json(ws[i]))
}

/// Wire shape of an admin answer.
pub open spec fn answer_json(a: ConfigMessageAnswerV) -> JsonV {
    JsonV::Obj(
        seq![
            ("id"@, JsonV::Text(a.id)),
            ("version"@, JsonV::Num(a.version as int)),
            ("status"@, JsonV::Text(a.status.spec_wire_name())),
            ("message"@, JsonV::Text(a.message)),
            (
                "data"@,
                match a.data {
                    Option::None => JsonV::Null,
                    Option::Some(AnswerDataV::Workers(ws)) => JsonV::Obj(
                        seq![("Workers"@, JsonV::Arr(winfos_json(ws)))],
                    ),
                },
            ),
        ],
    )
}

/// Wire shape of a worker's reply.
pub open spec fn server_json(m: ServerMessageV) -> JsonV {
    JsonV::Obj(
        seq![
            ("id"@, JsonV::Text(m.id)),
            ("status"@, JsonV::Text(m.status.spec_wire_name())),
            ("message"@, JsonV::Text(m.message)),
        ],
    )
}

/// A worker's reply read back from a JSON value.
pub open spec fn server_of_json(j: JsonV) -> Option<ServerMessageV> {
    match j {
        JsonV::Obj(o) => match (get_str(o, "id"@), get_str(o, "status"@), get_str(
            o,
            "message"@,
        )) {
            (Option::Some(id), Option::Some(st), Option::Some(msg)) => {
                if st == "Ok"@ {
                    Option::Some(
                        ServerMessageV { id: id, status: ConfigMessageStatus::Okay, message: msg },
                    )
                } else if st == "Processing"@ {
                    Option::Some(
                        ServerMessageV {
                            id: id,
                            status: ConfigMessageStatus::Processing,
                            message: msg,
                        },
                    )
                } else if st == "Error"@ {
                    Option::Some(
                        ServerMessageV { id: id, status: ConfigMessageStatus::Error, message: msg },
                    )
                } else {
                    Option::None
                }
            },
            _ => Option::None,
        },
        _ => Option::None,
    }
}

/// No member of `o` carries `key`.
pub open spec fn keyless(o: Seq<(Seq<char>, JsonV)>, key: Seq<char>) -> bool {
    forall|i: int| 0 <= i < o.len() ==> (#[trigger] o[i]).0 != key
}

/// Keylessness joins over concatenation.
proof fn lemma_keyless_concat(a: Seq<(Seq<char>, JsonV)>, b: Seq<(Seq<char>, JsonV)>, key: Seq<char>)
    requires
        keyless(a, key),
        keyless(b, key),
    ensures
        keyless(a + b, key),
{
    assert forall|i: int| 0 <= i < (a + b).len() implies ((a + b)[i]).0 != key by {
        if i < a.len() {
            assert((a + b)[i] == a[i]);
        } else {
            assert((a + b)[i] == b[i - a.len()]);
        }
    }
}

/// Keylessness of a list of at most two members, elementwise.
proof fn lemma_keyless_small(t: Seq<(Seq<char>, JsonV)>, key: Seq<char>)
    requires
        t.len() <= 2,
        t.len() >= 1 ==> t[0].0 != key,
        t.len() >= 2 ==> t[1].0 != key,
    ensures
        keyless(t, key),
{
    assert forall|i: int| 0 <= i < t.len() implies (t[i]).0 != key by {
        if i == 0 {
        } else {
            assert(i == 1);
        }
    }
}

/// `obj_get` ignores a suffix none of whose members carry `key`.
pub proof fn lemma_obj_get_skip(o1: Seq<(Seq<char>, JsonV)>, o2: Seq<(Seq<char>, JsonV)>, key: Seq<char>)
    requires
        keyless(o2, key),
    ensures
        obj_get(o1 + o2, key) == obj_get(o1, key),
    decreases o2.len(),
{
    if o2.len() == 0 {
        assert(o1 + o2 =~= o1);
    } else {
        assert((o1 + o2).last() == o2.last());
        assert((o1 + o2).drop_last() =~= o1 + o2.drop_last());
        assert(keyless(o2.drop_last(), key));
        lemma_obj_get_skip(o1, o2.drop_last(), key);
    }
}

/// `obj_get` finds a member whose key recurs nowhere later.
pub proof fn lemma_obj_get_hit(
    o1: Seq<(Seq<char>, JsonV)>,
    key: Seq<char>,
    v: JsonV,
    o2: Seq<(Seq<char>, JsonV)>,
)
    requires
        keyless(o2, key),
    ensures
        obj_get(o1 + seq![(key, v)] + o2, key) == Option::Some(v),
{
    lemma_obj_get_skip(o1 + seq![(key, v)], o2, key);
    assert((o1 + seq![(key, v)]).last() == (key, v));
}

/// A front's wire shape reads back to the front itself.
pub proof fn lemma_front_roundtrip(f: HttpFrontV)
    ensures
        front_of_obj(front_json(f)->Obj_0) == Option::Some(f),
{
    reveal_strlit("app_id");
    reveal_strlit("hostname");
    reveal_strlit("path_begin");
    assert("app_id"@.len() == 6);
    assert("hostname"@.len() == 8);
    assert("path_begin"@.len() == 10);
    let o = front_json(f)->Obj_0;
    let ea = ("app_id"@, JsonV::Text(f.app_id));
    let eh = ("hostname"@, JsonV::Text(f.hostname));
    let ep = ("path_begin"@, JsonV::Text(f.path_begin));
    let t1 = seq![eh, ep];
    assert(t1[0] == eh);
    assert(t1[1] == ep);
    lemma_keyless_small(t1, "app_id"@);
    assert(o =~= Seq::empty() + seq![ea] + t1);
    lemma_obj_get_hit(Seq::empty(), "app_id"@, JsonV::Text(f.app_id), t1);
    let t2 = seq![ep];
    assert(t2[0] == ep);
    lemma_keyless_small(t2, "hostname"@);
    assert(o =~= seq![ea] + seq![eh] + t2);
    lemma_obj_get_hit(seq![ea], "hostname"@, JsonV::Text(f.hostname), t2);
    let t3: Seq<(Seq<char>, JsonV)> = Seq::empty();
    lemma_keyless_small(t3, "path_begin"@);
    assert(o =~= seq![ea, eh] + seq![ep] + t3);
    lemma_obj_get_hit(seq![ea, eh], "path_begin"@, JsonV::Text(f.path_begin), t3);
}

/// A backend instance's wire shape reads back to the instance itself.
pub proof fn lemma_instance_roundtrip(i: InstanceV)
    ensures
        instance_of_obj(instance_json(i)->Obj_0) == Option::Some(i),
{
    reveal_strlit("app_id");
    reveal_strlit("ip_address");
    reveal_strlit("port");
    assert("app_id"@.len() == 6);
    assert("ip_address"@.len() == 10);
    assert("port"@.len() == 4);
    let o = instance_json(i)->Obj_0;
    let ea = ("app_id"@, JsonV::Text(i.app_id));
    let eip = ("ip_address"@, JsonV::Text(i.ip_address));
    let ep = ("port"@, JsonV::Num(i.port as int));
    let t1 = seq![eip, ep];
    assert(t1[0] == eip);
    assert(t1[1] == ep);
    lemma_keyless_small(t1, "app_id"@);
    assert(o =~= Seq::empty() + seq![ea] + t1);
    lemma_obj_get_hit(Seq::empty(), "app_id"@, JsonV::Text(i.app_id), t1);
    let t2 = seq![ep];
    assert(t2[0] == ep);
    lemma_keyless_small(t2, "ip_address"@);
    assert(o =~= seq![ea] + seq![eip] + t2);
    lemma_obj_get_hit(seq![ea], "ip_address"@, JsonV::Text(i.ip_address), t2);
    let t3: Seq<(Seq<char>, JsonV)> = Seq::empty();
    lemma_keyless_small(t3, "port"@);
    assert(o =~= seq![ea, eip] + seq![ep] + t3);
    lemma_obj_get_hit(seq![ea, eip], "port"@, JsonV::Num(i.port as int), t3);
}

/// The `type` tag an order is written under.
pub open spec fn order_tag(o: OrderV) -> Seq<char> {
    match o {
        OrderV::AddHttpFront(_) => "ADD_HTTP_FRONT"@,
        OrderV::RemoveHttpFront(_) => "REMOVE_HTTP_FRONT"@,
        OrderV::AddInstance(_) => "ADD_INSTANCE"@,
        OrderV::RemoveInstance(_) => "REMOVE_INSTANCE"@,
        OrderV::AddCertificate(_) => "ADD_CERTIFICATE"@,
        OrderV::RemoveCertificate(_) => "REMOVE_CERTIFICATE"@,
        OrderV::SoftStop => "SOFT_STOP"@,
        OrderV::HardStop => "HARD_STOP"@,
        OrderV::Status => "STATUS"@,
    }
}

/// An order's wire shape reads back to the order itself.
pub proof fn lemma_order_roundtrip(o: OrderV)
    ensures
        order_of_json(order_json(o)) == Option::Some(o),
{
    reveal_strlit("type");
    reveal_strlit("data");
    reveal_strlit("ADD_HTTP_FRONT");
    reveal_strlit("REMOVE_HTTP_FRONT");
    reveal_strlit("ADD_INSTANCE");
    reveal_strlit("REMOVE_INSTANCE");
    reveal_strlit("ADD_CERTIFICATE");
    reveal_strlit("REMOVE_CERTIFICATE");
    reveal_strlit("SOFT_STOP");
    reveal_strlit("HARD_STOP");
    reveal_strlit("STATUS");
    assert("type"@.len() == 4);
    assert("data"@.len() == 4);
    assert("type"@[0] == 't');
    assert("data"@[0] == 'd');
    assert("ADD_HTTP_FRONT"@.len() == 14);
    assert("REMOVE_HTTP_FRONT"@.len() == 17);
    assert("ADD_INSTANCE"@.len() == 12);
    assert("REMOVE_INSTANCE"@.len() == 15);
    assert("ADD_CERTIFICATE"@.len() == 15);
    assert("REMOVE_INSTANCE"@[0] == 'R');
    assert("ADD_CERTIFICATE"@[0] == 'A');
    assert("REMOVE_CERTIFICATE"@.len() == 18);
    assert("SOFT_STOP"@.len() == 9);
    assert("HARD_STOP"@.len() == 9);
    assert("SOFT_STOP"@[0] == 'S');
    assert("HARD_STOP"@[0] == 'H');
    assert("STATUS"@.len() == 6);
    let m = order_json(o)->Obj_0;
    let tag = order_tag(o);
    let et = ("type"@, JsonV::Text(tag));
    if m.len() == 2 {
        let ed = m[1];
        let t1 = seq![ed];
        assert(t1[0] == ed);
        assert(ed == (order_json(o)->Obj_0)[1]);
        lemma_keyless_small(t1, "type"@);
        assert(m =~= Seq::empty() + seq![et] + t1);
        lemma_obj_get_hit(Seq::empty(), "type"@, JsonV::Text(tag), t1);
        let t2: Seq<(Seq<char>, JsonV)> = Seq::empty();
        lemma_keyless_small(t2, "data"@);
        assert(m =~= seq![et] + seq![ed] + t2);
        lemma_obj_get_hit(seq![et], "data"@, ed.1, t2);
    } else {
        let t0: Seq<(Seq<char>, JsonV)> = Seq::empty();
        lemma_keyless_small(t0, "type"@);
        assert(m =~= Seq::empty() + seq![et] + t0);
        lemma_obj_get_hit(Seq::empty(), "type"@, JsonV::Text(tag), t0);
    }
    match o {
        OrderV::AddHttpFront(f) => {
            lemma_front_roundtrip(f);
        },
        OrderV::RemoveHttpFront(f) => {
            lemma_front_roundtrip(f);
        },
        OrderV::AddInstance(i) => {
            lemma_instance_roundtrip(i);
        },
        OrderV::RemoveInstance(i) => {
            lemma_instance_roundtrip(i);
        },
        _ => {},
    }
}

/// A request's wire shape reads back to the request itself, for requests of
/// the current protocol version.
#[verifier::rlimit(100)]
#[verifier::spinoff_prover]
pub proof fn lemma_msg_roundtrip(m: ConfigMessageV)
    requires
        m.version == crate::PROTOCOL_VERSION,
    ensures
        msg_of_json(msg_json(m)) == Result::<ConfigMessageV, ProtocolErrorV>::Ok(m),
{
    reveal_strlit("id");
    reveal_strlit("version");
    reveal_strlit("proxy");
    reveal_strlit("proxy_id");
    reveal_strlit("type");
    reveal_strlit("data");
    reveal_strlit("path");
    reveal_strlit("PROXY");
    reveal_strlit("SAVE_STATE");
    reveal_strlit("LOAD_STATE");
    reveal_strlit("DUMP_STATE");
    reveal_strlit("LIST_WORKERS");
    reveal_strlit("LAUNCH_WORKER");
    reveal_strlit("UPGRADE_MASTER");
    assert("id"@.len() == 2);
    assert("version"@.len() == 7);
    assert("proxy"@.len() == 5);
    assert("proxy_id"@.len() == 8);
    assert("type"@.len() == 4);
    assert("data"@.len() == 4);
    assert("path"@.len() == 4);
    assert("type"@[0] == 't');
    assert("data"@[0] == 'd');
    assert("path"@[0] == 'p');
    assert("PROXY"@.len() == 5);
    assert("PROXY"@[0] == 'P');
    assert("proxy"@[0] == 'p');
    assert("SAVE_STATE"@.len() == 10);
    assert("LOAD_STATE"@.len() == 10);
    assert("DUMP_STATE"@.len() == 10);
    assert("SAVE_STATE"@[0] == 'S');
    assert("LOAD_STATE"@[0] == 'L');
    assert("DUMP_STATE"@[0] == 'D');
    assert("LIST_WORKERS"@.len() == 12);
    assert("LAUNCH_WORKER"@.len() == 13);
    assert("UPGRADE_MASTER"@.len() == 14);
    let o = msg_json(m)->Obj_0;
    let eid = ("id"@, JsonV::Text(m.id));
    let ever = ("version"@, JsonV::Num(m.version as int));
    let pp: Seq<(Seq<char>, JsonV)> = match m.proxy {
        Option::Some(p) => seq![("proxy"@, JsonV::Text(p))],
        Option::None => Seq::empty(),
    };
    let qq: Seq<(Seq<char>, JsonV)> = match m.proxy_id {
        Option::Some(x) => seq![("proxy_id"@, JsonV::Num(x as int))],
        Option::None => Seq::empty(),
    };
    let tt: Seq<(Seq<char>, JsonV)> = match m.data {
        ConfigCommandV::ProxyConfiguration(ord) => seq![
            ("type"@, JsonV::Text("PROXY"@)),
            ("data"@, order_json(ord)),
        ],
        ConfigCommandV::SaveState(p) => seq![
            ("type"@, JsonV::Text("SAVE_STATE"@)),
            ("data"@, JsonV::Obj(seq![("path"@, JsonV::Text(p))])),
        ],
        ConfigCommandV::LoadState(p) => seq![
            ("type"@, JsonV::Text("LOAD_STATE"@)),
            ("data"@, JsonV::Obj(seq![("path"@, JsonV::Text(p))])),
        ],
        ConfigCommandV::DumpState => seq![("type"@, JsonV::Text("DUMP_STATE"@))],
        ConfigCommandV::ListWorkers => seq![("type"@, JsonV::Text("LIST_WORKERS"@))],
        ConfigCommandV::LaunchWorker(t) => seq![
            ("type"@, JsonV::Text("LAUNCH_WORKER"@)),
            ("data"@, JsonV::Text(t)),
        ],
        ConfigCommandV::UpgradeMaster => seq![("type"@, JsonV::Text("UPGRADE_MASTER"@))],
    };
    match m.data {
        ConfigCommandV::ProxyConfiguration(ord) => {
            assert(tt[0] == ("type"@, JsonV::Text("PROXY"@)));
            assert(tt[1] == ("data"@, order_json(ord)));
        },
        ConfigCommandV::SaveState(p) => {
            assert(tt[0] == ("type"@, JsonV::Text("SAVE_STATE"@)));
            assert(tt[1] == ("data"@, JsonV::Obj(seq![("path"@, JsonV::Text(p))])));
        },
        ConfigCommandV::LoadState(p) => {
            assert(tt[0] == ("type"@, JsonV::Text("LOAD_STATE"@)));
            assert(tt[1] == ("data"@, JsonV::Obj(seq![("path"@, JsonV::Text(p))])));
        },
        ConfigCommandV::DumpState => {
            assert(tt[0] == ("type"@, JsonV::Text("DUMP_STATE"@)));
        },
        ConfigCommandV::ListWorkers => {
            assert(tt[0] == ("type"@, JsonV::Text("LIST_WORKERS"@)));
        },
        ConfigCommandV::LaunchWorker(t) => {
            assert(tt[0] == ("type"@, JsonV::Text("LAUNCH_WORKER"@)));
            assert(tt[1] == ("data"@, JsonV::Text(t)));
        },
        ConfigCommandV::UpgradeMaster => {
            assert(tt[0] == ("type"@, JsonV::Text("UPGRADE_MASTER"@)));
        },
    }
    assert(o =~= seq![eid, ever] + pp + qq + tt);
    assert(tt.len() == 1 || tt.len() == 2);
    assert(tt[0].0 == "type"@);
    assert(tt.len() == 2 ==> tt[1].0 == "data"@);
    assert(msg_keys_ok(o)) by {
        assert forall|i: int| 0 <= i < o.len() implies msg_key_ok((#[trigger] o[i]).0) by {
            if i == 0 {
                assert(o[i] == eid);
            } else if i == 1 {
                assert(o[i] == ever);
            } else if i < 2 + pp.len() {
                assert(o[i] == pp[i - 2]);
            } else if i < 2 + pp.len() + qq.len() {
                assert(o[i] == qq[i - 2 - pp.len()]);
            } else {
                assert(o[i] == tt[i - 2 - pp.len() - qq.len()]);
            }
        }
    }
    let rest1 = seq![ever] + pp + qq + tt;
    assert(keyless(rest1, "id"@)) by {
        assert forall|i: int| 0 <= i < rest1.len() implies (rest1[i]).0 != "id"@ by {
            assert(rest1[i] == o[1 + i]);
        }
    }
    assert(o =~= Seq::empty() + seq![eid] + rest1);
    lemma_obj_get_hit(Seq::empty(), "id"@, JsonV::Text(m.id), rest1);
    assert(get_str(o, "id"@) == Option::Some(m.id));
    let rest2 = pp + qq + tt;
    assert(keyless(rest2, "version"@)) by {
        assert forall|i: int| 0 <= i < rest2.len() implies (rest2[i]).0 != "version"@ by {
            assert(rest2[i] == o[2 + i]);
        }
    }
    assert(o =~= seq![eid] + seq![ever] + rest2);
    lemma_obj_get_hit(seq![eid], "version"@, JsonV::Num(m.version as int), rest2);
    assert(get_num(o, "version"@) == Option::Some(m.version as int));
    let rest3 = qq + tt;
    assert(keyless(rest3, "proxy"@)) by {
        assert forall|i: int| 0 <= i < rest3.len() implies (rest3[i]).0 != "proxy"@ by {
            assert(rest3[i] == o[2 + pp.len() + i]);
        }
    }
    match m.proxy {
        Option::Some(p) => {
            assert(o =~= (seq![eid, ever]) + seq![("proxy"@, JsonV::Text(p))] + rest3);
            lemma_obj_get_hit(seq![eid, ever], "proxy"@, JsonV::Text(p), rest3);
            assert(get_str(o, "proxy"@) == Option::Some(p));
        },
        Option::None => {
            let whole = seq![eid, ever] + rest3;
            assert(keyless(whole, "proxy"@)) by {
                assert forall|i: int| 0 <= i < whole.len() implies (whole[i]).0 != "proxy"@ by {
                    assert(whole[i] == o[i]);
                }
            }
            assert(o =~= Seq::empty() + whole);
            lemma_obj_get_skip(Seq::empty(), whole, "proxy"@);
            assert(get_str(o, "proxy"@) is None);
        },
    }
    lemma_keyless_small(tt, "proxy_id"@);
    match m.proxy_id {
        Option::Some(x) => {
            assert(o =~= (seq![eid, ever] + pp) + seq![("proxy_id"@, JsonV::Num(x as int))] + tt);
            lemma_obj_get_hit(seq![eid, ever] + pp, "proxy_id"@, JsonV::Num(x as int), tt);
            assert(get_num(o, "proxy_id"@) == Option::Some(x as int));
        },
        Option::None => {
            let whole = seq![eid, ever] + pp + tt;
            assert(keyless(whole, "proxy_id"@)) by {
                assert forall|i: int| 0 <= i < whole.len() implies (whole[i]).0 != "proxy_id"@
                by {
                    if i < 2 + pp.len() {
                        assert(whole[i] == o[i]);
                    } else {
                        assert(whole[i] == tt[i - 2 - pp.len()]);
                    }
                }
            }
            assert(o =~= Seq::empty() + whole);
            lemma_obj_get_skip(Seq::empty(), whole, "proxy_id"@);
            assert(get_num(o, "proxy_id"@) is None);
        },
    }
    let base = seq![eid, ever] + pp + qq;
    if tt.len() == 2 {
        let t1 = seq![tt[1]];
        assert(t1[0] == tt[1]);
        lemma_keyless_small(t1, "type"@);
        assert(o =~= base + seq![tt[0]] + t1);
        lemma_obj_get_hit(base, "type"@, tt[0].1, t1);
        let t2: Seq<(Seq<char>, JsonV)> = Seq::empty();
        lemma_keyless_small(t2, "data"@);
        assert(o =~= (base + seq![tt[0]]) + seq![tt[1]] + t2);
        lemma_obj_get_hit(base + seq![tt[0]], "data"@, tt[1].1, t2);
    } else {
        let t0: Seq<(Seq<char>, JsonV)> = Seq::empty();
        lemma_keyless_small(t0, "type"@);
        assert(o =~= base + seq![tt[0]] + t0);
        lemma_obj_get_hit(base, "type"@, tt[0].1, t0);
    }
    match m.data {
        ConfigCommandV::ProxyConfiguration(ord) => {
            lemma_order_roundtrip(ord);
        },
        ConfigCommandV::SaveState(p) => {
            let dm = seq![("path"@, JsonV::Text(p))];
            let t0: Seq<(Seq<char>, JsonV)> = Seq::empty();
            lemma_keyless_small(t0, "path"@);
            assert(dm =~= Seq::empty() + seq![("path"@, JsonV::Text(p))] + t0);
            lemma_obj_get_hit(Seq::empty(), "path"@, JsonV::Text(p), t0);
        },
        ConfigCommandV::LoadState(p) => {
            let dm = seq![("path"@, JsonV::Text(p))];
            let t0: Seq<(Seq<char>, JsonV)> = Seq::empty();
            lemma_keyless_small(t0, "path"@);
            assert(dm =~= Seq::empty() + seq![("path"@, JsonV::Text(p))] + t0);
            lemma_obj_get_hit(Seq::empty(), "path"@, JsonV::Text(p), t0);
        },
        _ => {},
    }
}

/// A worker reply's wire shape reads back to the reply itself.
pub proof fn lemma_server_roundtrip(m: ServerMessageV)
    ensures
        server_of_json(server_json(m)) == Option::Some(m),
{
    reveal_strlit("id");
    reveal_strlit("status");
    reveal_strlit("message");
    reveal_strlit("Ok");
    reveal_strlit("Processing");
    reveal_strlit("Error");
    assert("id"@.len() == 2);
    assert("status"@.len() == 6);
    assert("message"@.len() == 7);
    assert("Ok"@.len() == 2);
    assert("Processing"@.len() == 10);
    assert("Error"@.len() == 5);
    assert("id"@[0] == 'i');
    assert("Ok"@[0] == 'O');
    let o = server_json(m)->Obj_0;
    let eid = ("id"@, JsonV::Text(m.id));
    let est = ("status"@, JsonV::Text(m.status.spec_wire_name()));
    let emsg = ("message"@, JsonV::Text(m.message));
    let t1 = seq![est, emsg];
    assert(t1[0] == est);
    assert(t1[1] == emsg);
    lemma_keyless_small(t1, "id"@);
    assert(o =~= Seq::empty() + seq![eid] + t1);
    lemma_obj_get_hit(Seq::empty(), "id"@, JsonV::Text(m.id), t1);
    let t2 = seq![emsg];
    assert(t2[0] == emsg);
    lemma_keyless_small(t2, "status"@);
    assert(o =~= seq![eid] + seq![est] + t2);
    lemma_obj_get_hit(seq![eid], "status"@, JsonV::Text(m.status.spec_wire_name()), t2);
    let t3: Seq<(Seq<char>, JsonV)> = Seq::empty();
    lemma_keyless_small(t3, "message"@);
    assert(o =~= seq![eid, est] + seq![emsg] + t3);
    lemma_obj_get_hit(seq![eid, est], "message"@, JsonV::Text(m.message), t3);
}

/// Character-for-character string equality.
pub fn str_eq(a: &str, b: &str) -> (r: bool)
    ensures
        r == (a@ == b@),
{
    let n = a.unicode_len();
    let m = b.unicode_len();
    if n != m {
        proof {
            assert(a@.len() != b@.len());
        }
        return false;
    }
    let mut i: usize = 0;
    while i < n
        invariant
            n == a@.len(),
            n == b@.len(),
            0 <= i <= n,
            forall|k: int| 0 <= k < i ==> a@[k] == b@[k],
        decreases n - i,
    {
        if a.get_char(i) != b.get_char(i) {
            return false;
        }
        i = i + 1;
    }
    proof {
        assert(a@ =~= b@);
    }
    true
}

/// The value of the last member of `o` named `key`, as [`obj_get`] picks it.
pub fn obj_value<'a>(o: &'a Vec<(String, Json)>, key: &str) -> (r: Option<&'a Json>)
    ensures
        match obj_get(jview_members(o@, 0), key@) {
            Option::None => r is None,
            Option::Some(jv) => r matches Option::Some(x) && jview(*x) == jv,
        },
{
    proof {
        lemma_jview_members_index(o@, 0);
    }
    let ghost full = jview_members(o@, 0);
    let mut found: Option<usize> = Option::None;
    let mut i: usize = 0;
    while i < o.len()
        invariant
            0 <= i <= o@.len(),
            full == jview_members(o@, 0),
            full.len() == o@.len(),
            forall|k: int|
                0 <= k < o@.len() ==> #[trigger] full[k] == (o@[k].0@, jview(o@[k].1)),
            match found {
                Option::None => obj_get(full.take(i as int), key@) is None,
                Option::Some(ix) => ix < i && obj_get(full.take(i as int), key@)
                    == Option::Some(jview(o@[ix as int].1)),
            },
        decreases o@.len() - i,
    {
        proof {
            assert(full.take(i as int + 1).drop_last() =~= full.take(i as int));
            assert(full.take(i as int + 1).last() == full[i as int]);
        }
        if str_eq(o[i].0.as_str(), key) {
            found = Option::Some(i);
        }
        i = i + 1;
    }
    proof {
        assert(full.take(o@.len() as int) =~= full);
    }
    match found {
        Option::None => Option::None,
        Option::Some(ix) => Option::Some(&o[ix].1),
    }
}

/// The string under `key`, as [`get_str`] reads it.
pub fn get_str_field(o: &Vec<(String, Json)>, key: &str) -> (r: Option<String>)
    ensures
        match get_str(jview_members(o@, 0), key@) {
            Option::None => r is None,
            Option::Some(sv) => r matches Option::Some(s) && s@ == sv,
        },
{
    match obj_value(o, key) {
        Option::None => Option::None,
        Option::Some(j) => match j {
            Json::Text(s) => Option::Some(s.clone()),
            _ => Option::None,
        },
    }
}

/// The number under `key`, as [`get_num`] reads it.
pub fn get_num_field(o: &Vec<(String, Json)>, key: &str) -> (r: Option<i64>)
    ensures
        match get_num(jview_members(o@, 0), key@) {
            Option::None => r is None,
            Option::Some(nv) => r matches Option::Some(n) && n as int == nv,
        },
{
    match obj_value(o, key) {
        Option::None => Option::None,
        Option::Some(j) => match j {
            Json::Num(n) => Option::Some(*n),
            _ => Option::None,
        },
    }
}

/// Wire form of a front, as a JSON value.
pub fn front_to_json(f: &HttpFront) -> (r: Json)
    ensures
        jview(r) == front_json(f@),
{
    let mut m: Vec<(String, Json)> = Vec::new();
    m.push((String::from_str("app_id"), Json::Text(f.app_id.clone())));
    m.push((String::from_str("hostname"), Json::Text(f.hostname.clone())));
    m.push((String::from_str("path_begin"), Json::Text(f.path_begin.clone())));
    let r = Json::Obj(m);
    proof {
        let mv = r->Obj_0@;
        lemma_jview_members_index(mv, 0);
        assert(jview_members(mv, 0) =~= front_json(f@)->Obj_0);
    }
    r
}

/// Wire form of a backend instance, as a JSON value.
pub fn instance_to_json(i: &Instance) -> (r: Json)
    ensures
        jview(r) == instance_json(i@),
{
    let mut m: Vec<(String, Json)> = Vec::new();
    m.push((String::from_str("app_id"), Json::Text(i.app_id.clone())));
    m.push((String::from_str("ip_address"), Json::Text(i.ip_address.clone())));
    m.push((String::from_str("port"), Json::Num(i.port as i64)));
    let r = Json::Obj(m);
    proof {
        let mv = r->Obj_0@;
        lemma_jview_members_index(mv, 0);
        assert(jview_members(mv, 0) =~= instance_json(i@)->Obj_0);
    }
    r
}

/// Wire form of an order, as a JSON value.
pub fn order_to_json(o: &Order) -> (r: Json)
    ensures
        jview(r) == order_json(o@),
{
    let mut m: Vec<(String, Json)> = Vec::new();
    match o {
        Order::AddHttpFront(f) => {
            m.push((String::from_str("type"), Json::Text(String::from_str("ADD_HTTP_FRONT"))));
            m.push((String::from_str("data"), front_to_json(f)));
        },
        Order::RemoveHttpFront(f) => {
            m.push(
                (String::from_str("type"), Json::Text(String::from_str("REMOVE_HTTP_FRONT"))),
            );
            m.push((String::from_str("data"), front_to_json(f)));
        },
        Order::AddInstance(i) => {
            m.push((String::from_str("type"), Json::Text(String::from_str("ADD_INSTANCE"))));
            m.push((String::from_str("data"), instance_to_json(i)));
        },
        Order::RemoveInstance(i) => {
            m.push((String::from_str("type"), Json::Text(String::from_str("REMOVE_INSTANCE"))));
            m.push((String::from_str("data"), instance_to_json(i)));
        },
        Order::AddCertificate(c) => {
            m.push((String::from_str("type"), Json::Text(String::from_str("ADD_CERTIFICATE"))));
            m.push((String::from_str("data"), Json::Text(c.clone())));
        },
        Order::RemoveCertificate(c) => {
            m.push(
                (String::from_str("type"), Json::Text(String::from_str("REMOVE_CERTIFICATE"))),
            );
            m.push((String::from_str("data"), Json::Text(c.clone())));
        },
        Order::SoftStop => {
            m.push((String::from_str("type"), Json::Text(String::from_str("SOFT_STOP"))));
        },
        Order::HardStop => {
            m.push((String::from_str("type"), Json::Text(String::from_str("HARD_STOP"))));
        },
        Order::Status => {
            m.push((String::from_str("type"), Json::Text(String::from_str("STATUS"))));
        },
    }
    let r = Json::Obj(m);
    proof {
        let mv = r->Obj_0@;
        lemma_jview_members_index(mv, 0);
        assert(jview_members(mv, 0) =~= order_json(o@)->Obj_0);
    }
    r
}

/// Wire text of an admin request, ready to be framed on a channel.
pub fn encode_config_message(m: &ConfigMessage) -> (r: String)
    ensures
        r@ == penc(msg_json(m@)),
{
    let mut mems: Vec<(String, Json)> = Vec::new();
    mems.push((String::from_str("id"), Json::Text(m.id.clone())));
    mems.push((String::from_str("version"), Json::Num(m.version as i64)));
    match &m.proxy {
        Option::Some(p) => {
            mems.push((String::from_str("proxy"), Json::Text(p.clone())));
        },
        Option::None => {},
    }
    match m.proxy_id {
        Option::Some(x) => {
            mems.push((String::from_str("proxy_id"), Json::Num(x as i64)));
        },
        Option::None => {},
    }
    match &m.data {
        ConfigCommand::ProxyConfiguration(o) => {
            mems.push((String::from_str("type"), Json::Text(String::from_str("PROXY"))));
            mems.push((String::from_str("data"), order_to_json(o)));
        },
        ConfigCommand::SaveState(p) => {
            mems.push((String::from_str("type"), Json::Text(String::from_str("SAVE_STATE"))));
            let mut d: Vec<(String, Json)> = Vec::new();
            d.push((String::from_str("path"), Json::Text(p.clone())));
            proof {
                lemma_jview_members_index(d@, 0);
                assert(jview_members(d@, 0) =~= seq![("path"@, JsonV::Text(p@))]);
            }
            mems.push((String::from_str("data"), Json::Obj(d)));
        },
        ConfigCommand::LoadState(p) => {
            mems.push((String::from_str("type"), Json::Text(String::from_str("LOAD_STATE"))));
            let mut d: Vec<(String, Json)> = Vec::new();
            d.push((String::from_str("path"), Json::Text(p.clone())));
            proof {
                lemma_jview_members_index(d@, 0);
                assert(jview_members(d@, 0) =~= seq![("path"@, JsonV::Text(p@))]);
            }
            mems.push((String::from_str("data"), Json::Obj(d)));
        },
        ConfigCommand::DumpState => {
            mems.push((String::from_str("type"), Json::Text(String::from_str("DUMP_STATE"))));
        },
        ConfigCommand::ListWorkers => {
            mems.push((String::from_str("type"), Json::Text(String::from_str("LIST_WORKERS"))));
        },
        ConfigCommand::LaunchWorker(t) => {
            mems.push((String::from_str("type"), Json::Text(String::from_str("LAUNCH_WORKER"))));
            mems.push((String::from_str("data"), Json::Text(t.clone())));
        },
        ConfigCommand::UpgradeMaster => {
            mems.push(
                (String::from_str("type"), Json::Text(String::from_str("UPGRADE_MASTER"))),
            );
        },
    }
    let j = Json::Obj(mems);
    proof {
        let mv = j->Obj_0@;
        lemma_jview_members_index(mv, 0);
        assert(jview_members(mv, 0) =~= msg_json(m@)->Obj_0);
    }
    json_to_string(&j)
}

/// A front read from its wire shape, as [`front_of_obj`] reads it.
pub fn front_of(o: &Vec<(String, Json)>) -> (r: Option<HttpFront>)
    ensures
        match front_of_obj(jview_members(o@, 0)) {
            Option::None => r is None,
            Option::Some(fv) => r matches Option::Some(f) && f@ == fv,
        },
{
    let a = get_str_field(o, "app_id");
    let h = get_str_field(o, "hostname");
    let p = get_str_field(o, "path_begin");
    match (a, h, p) {
        (Option::Some(a), Option::Some(h), Option::Some(p)) => Option::Some(
            HttpFront { app_id: a, hostname: h, path_begin: p },
        ),
        _ => Option::None,
    }
}

/// A backend instance read from its wire shape, as [`instance_of_obj`]
/// reads it.
pub fn instance_of(o: &Vec<(String, Json)>) -> (r: Option<Instance>)
    ensures
        match instance_of_obj(jview_members(o@, 0)) {
            Option::None => r is None,
            Option::Some(iv) => r matches Option::Some(i) && i@ == iv,
        },
{
    let a = get_str_field(o, "app_id");
    let ip = get_str_field(o, "ip_address");
    let p = get_num_field(o, "port");
    match (a, ip, p) {
        (Option::Some(a), Option::Some(ip), Option::Some(p)) => {
            if 0 <= p && p < 65536 {
                Option::Some(Instance { app_id: a, ip_address: ip, port: p as u16 })
            } else {
                Option::None
            }
        },
        _ => Option::None,
    }
}

/// An order read from its wire shape, as [`order_of_json`] reads it.
pub fn order_of(j: &Json) -> (r: Option<Order>)
    ensures
        match order_of_json(jview(*j)) {
            Option::None => r is None,
            Option::Some(ov) => r matches Option::Some(o) && o@ == ov,
        },
{
    let o = match j {
        Json::Obj(o) => o,
        _ => {
            return Option::None;
        },
    };
    let t = match get_str_field(o, "type") {
        Option::Some(t) => t,
        Option::None => {
            return Option::None;
        },
    };
    if str_eq(t.as_str(), "ADD_HTTP_FRONT") {
        match obj_value(o, "data") {
            Option::Some(Json::Obj(d)) => match front_of(d) {
                Option::Some(f) => Option::Some(Order::AddHttpFront(f)),
                Option::None => Option::None,
            },
            _ => Option::None,
        }
    } else if str_eq(t.as_str(), "REMOVE_HTTP_FRONT") {
        match obj_value(o, "data") {
            Option::Some(Json::Obj(d)) => match front_of(d) {
                Option::Some(f) => Option::Some(Order::RemoveHttpFront(f)),
                Option::None => Option::None,
            },
            _ => Option::None,
        }
    } else if str_eq(t.as_str(), "ADD_INSTANCE") {
        match obj_value(o, "data") {
            Option::Some(Json::Obj(d)) => match instance_of(d) {
                Option::Some(i) => Option::Some(Order::AddInstance(i)),
                Option::None => Option::None,
            },
            _ => Option::None,
        }
    } else if str_eq(t.as_str(), "REMOVE_INSTANCE") {
        match obj_value(o, "data") {
            Option::Some(Json::Obj(d)) => match instance_of(d) {
                Option::Some(i) => Option::Some(Order::RemoveInstance(i)),
                Option::None => Option::None,
            },
            _ => Option::None,
        }
    } else if str_eq(t.as_str(), "ADD_CERTIFICATE") {
        match get_str_field(o, "data") {
            Option::Some(c) => Option::Some(Order::AddCertificate(c)),
            Option::None => Option::None,
        }
    } else if str_eq(t.as_str(), "REMOVE_CERTIFICATE") {
        match get_str_field(o, "data") {
            Option::Some(c) => Option::Some(Order::RemoveCertificate(c)),
            Option::None => Option::None,
        }
    } else if str_eq(t.as_str(), "SOFT_STOP") {
        Option::Some(Order::SoftStop)
    } else if str_eq(t.as_str(), "HARD_STOP") {
        Option::Some(Order::HardStop)
    } else if str_eq(t.as_str(), "STATUS") {
        Option::Some(Order::Status)
    } else {
        Option::None
    }
}

/// The command under the tag `t`, as [`msg_command_of`] reads it.
fn command_of(o: &Vec<(String, Json)>, t: &str) -> (r: Result<ConfigCommand, ProtocolError>)
    ensures
        match msg_command_of(jview_members(o@, 0), t@) {
            Result::Ok(cv) => r matches Result::Ok(c) && c@ == cv,
            Result::Err(ev) => r matches Result::Err(e) && e@ == ev,
        },
{
    if str_eq(t, "PROXY") {
        match obj_value(o, "data") {
            Option::None => Result::Err(ProtocolError::MissingField(String::from_str("data"))),
            Option::Some(d) => match order_of(d) {
                Option::Some(ord) => Result::Ok(ConfigCommand::ProxyConfiguration(ord)),
                Option::None => Result::Err(ProtocolError::Decode),
            },
        }
    } else if str_eq(t, "SAVE_STATE") {
        match obj_value(o, "data") {
            Option::None => Result::Err(ProtocolError::MissingField(String::from_str("data"))),
            Option::Some(Json::Obj(dm)) => match get_str_field(dm, "path") {
                Option::Some(p) => Result::Ok(ConfigCommand::SaveState(p)),
                Option::None => Result::Err(ProtocolError::Decode),
            },
            Option::Some(_) => Result::Err(ProtocolError::Decode),
        }
    } else if str_eq(t, "LOAD_STATE") {
        match obj_value(o, "data") {
            Option::None => Result::Err(ProtocolError::MissingField(String::from_str("data"))),
            Option::Some(Json::Obj(dm)) => match get_str_field(dm, "path") {
                Option::Some(p) => Result::Ok(ConfigCommand::LoadState(p)),
                Option::None => Result::Err(ProtocolError::Decode),
            },
            Option::Some(_) => Result::Err(ProtocolError::Decode),
        }
    } else if str_eq(t, "DUMP_STATE") {
        Result::Ok(ConfigCommand::DumpState)
    } else if str_eq(t, "LIST_WORKERS") {
        Result::Ok(ConfigCommand::ListWorkers)
    } else if str_eq(t, "LAUNCH_WORKER") {
        match obj_value(o, "data") {
            Option::None => Result::Err(ProtocolError::MissingField(String::from_str("data"))),
            Option::Some(Json::Text(tag)) => Result::Ok(
                ConfigCommand::LaunchWorker(tag.clone()),
            ),
            Option::Some(_) => Result::Err(ProtocolError::Decode),
        }
    } else if str_eq(t, "UPGRADE_MASTER") {
        Result::Ok(ConfigCommand::UpgradeMaster)
    } else {
        Result::Err(ProtocolError::UnrecognizedCommand)
    }
}

/// Whether `k` is an admin-request member name; see [`msg_key_ok`].
fn msg_key_check(k: &str) -> (r: bool)
    ensures
        r == msg_key_ok(k@),
{
    str_eq(k, "id") || str_eq(k, "version") || str_eq(k, "proxy") || str_eq(k, "proxy_id")
        || str_eq(k, "type") || str_eq(k, "data")
}

/// Whether every member of `o` carries an admin-request member name.
#[verifier::loop_isolation(false)]
fn msg_keys_within(o: &Vec<(String, Json)>) -> (r: bool)
    ensures
        r == msg_keys_ok(jview_members(o@, 0)),
{
    let ghost mv = jview_members(o@, 0);
    proof {
        lemma_jview_members_index(o@, 0);
    }
    let mut i: usize = 0;
    while i < o.len()
        invariant
            0 <= i <= o@.len(),
            forall|k: int| 0 <= k < i ==> msg_key_ok((#[trigger] mv[k]).0),
        decreases o@.len() - i,
    {
        if !msg_key_check(o[i].0.as_str()) {
            proof {
                assert(mv[i as int].0 == o@[i as int].0@);
                assert(!msg_key_ok(mv[i as int].0));
            }
            return false;
        }
        proof {
            assert(mv[i as int].0 == o@[i as int].0@);
        }
        i = i + 1;
    }
    true
}

/// One admin request read from its wire text: the message, or the protocol
/// error the reader answers. A text that is not one JSON value is a
/// `Decode` error; a recognized value missing a required field names that
/// field; an unknown `type` tag is `UnrecognizedCommand`; a `version` other
/// than [`crate::PROTOCOL_VERSION`] is `BadVersion`.
pub fn parse_config_message(s: &str) -> (r: Result<ConfigMessage, ProtocolError>)
    ensures
        match pjson(s@) {
            Option::None => r matches Result::Err(e) && e@ == ProtocolErrorV::Decode,
            Option::Some(jv) => match msg_of_json(jv) {
                Result::Ok(mv) => r matches Result::Ok(m) && m@ == mv,
                Result::Err(ev) => r matches Result::Err(e) && e@ == ev,
            },
        },
{
    let j = match json_parse(s) {
        Option::None => {
            return Result::Err(ProtocolError::Decode);
        },
        Option::Some(j) => j,
    };
    let o = match &j {
        Json::Obj(o) => o,
        _ => {
            return Result::Err(ProtocolError::Decode);
        },
    };
    if !msg_keys_within(o) {
        return Result::Err(ProtocolError::Decode);
    }
    let t = match get_str_field(o, "type") {
        Option::Some(t) => t,
        Option::None => {
            return Result::Err(ProtocolError::MissingField(String::from_str("type")));
        },
    };
    let id = match get_str_field(o, "id") {
        Option::Some(id) => id,
        Option::None => {
            return Result::Err(ProtocolError::MissingField(String::from_str("id")));
        },
    };
    let ver = match get_num_field(o, "version") {
        Option::Some(v) => v,
        Option::None => {
            return Result::Err(ProtocolError::MissingField(String::from_str("version")));
        },
    };
    if ver != crate::PROTOCOL_VERSION as i64 {
        return Result::Err(ProtocolError::BadVersion);
    }
    let proxy: Option<String> = match obj_value(o, "proxy") {
        Option::None => Option::None,
        Option::Some(Json::Text(p)) => Option::Some(p.clone()),
        Option::Some(_) => {
            return Result::Err(ProtocolError::Decode);
        },
    };
    let proxy_id: Option<u32> = match obj_value(o, "proxy_id") {
        Option::None => Option::None,
        Option::Some(Json::Num(x)) => {
            if 0 <= *x && *x < 0x1_0000_0000i64 {
                Option::Some(*x as u32)
            } else {
                return Result::Err(ProtocolError::Decode);
            }
        },
        Option::Some(_) => {
            return Result::Err(ProtocolError::Decode);
        },
    };
    match command_of(o, t.as_str()) {
        Result::Ok(cmd) => Result::Ok(
            ConfigMessage {
                id: id,
                version: crate::PROTOCOL_VERSION,
                data: cmd,
                proxy: proxy,
                proxy_id: proxy_id,
            },
        ),
        Result::Err(e) => Result::Err(e),
    }
}

/// Wire text of an admin answer.
pub fn encode_answer(a: &ConfigMessageAnswer) -> (r: String)
    ensures
        r@ == penc(answer_json(a@)),
{
    let data_json: Json = match &a.data {
        Option::None => Json::Null,
        Option::Some(AnswerData::Workers(ws)) => {
            let mut arr: Vec<Json> = Vec::new();
            let mut i: usize = 0;
            while i < ws.len()
                invariant
                    0 <= i <= ws@.len(),
                    arr@.len() == i,
                    forall|k: int|
                        0 <= k < i ==> jview(#[trigger] arr@[k]) == winfo_json(ws@[k]@),
                decreases ws@.len() - i,
            {
                let w = &ws[i];
                let mut m: Vec<(String, Json)> = Vec::new();
                m.push((String::from_str("id"), Json::Num(w.id as i64)));
                m.push((String::from_str("pid"), Json::Num(w.pid as i64)));
                m.push((String::from_str("tag"), Json::Text(w.tag.clone())));
                m.push(
                    (
                        String::from_str("proxy_type"),
                        Json::Text(String::from_str(w.proxy_type.wire_name())),
                    ),
                );
                let rs = match w.run_state {
                    RunState::Running => "Running",
                    RunState::Stopping => "Stopping",
                    RunState::Stopped => "Stopped",
                };
                m.push((String::from_str("run_state"), Json::Text(String::from_str(rs))));
                let wj = Json::Obj(m);
                proof {
                    let mv = wj->Obj_0@;
                    lemma_jview_members_index(mv, 0);
                    assert(jview_members(mv, 0) =~= winfo_json(ws@[i as int]@)->Obj_0);
                }
                arr.push(wj);
                i = i + 1;
            }
            let mut dm: Vec<(String, Json)> = Vec::new();
            let aj = Json::Arr(arr);
            proof {
                lemma_jview_items_index(aj->Arr_0@, 0);
                assert(jview_items(aj->Arr_0@, 0) =~= winfos_json(
                    Seq::new(ws@.len(), |k: int| ws@[k]@),
                ));
            }
            dm.push((String::from_str("Workers"), aj));
            let dj = Json::Obj(dm);
            proof {
                let mv = dj->Obj_0@;
                lemma_jview_members_index(mv, 0);
                assert(jview_members(mv, 0) =~= seq![
                    (
                        "Workers"@,
                        JsonV::Arr(winfos_json(Seq::new(ws@.len(), |k: int| ws@[k]@))),
                    ),
                ]);
            }
            dj
        },
    };
    let mut mems: Vec<(String, Json)> = Vec::new();
    mems.push((String::from_str("id"), Json::Text(a.id.clone())));
    mems.push((String::from_str("version"), Json::Num(a.version as i64)));
    mems.push(
        (
            String::from_str("status"),
            Json::Text(
                String::from_str(
                    match a.status {
                        ConfigMessageStatus::Okay => "Ok",
                        ConfigMessageStatus::Processing => "Processing",
                        ConfigMessageStatus::Error => "Error",
                    },
                ),
            ),
        ),
    );
    mems.push((String::from_str("message"), Json::Text(a.message.clone())));
    mems.push((String::from_str("data"), data_json));
    let j = Json::Obj(mems);
    proof {
        let mv = j->Obj_0@;
        lemma_jview_members_index(mv, 0);
        assert(jview_members(mv, 0) =~= answer_json(a@)->Obj_0);
    }
    json_to_string(&j)
}

/// Wire text of a worker's reply.
pub fn encode_server_message(m: &ServerMessage) -> (r: String)
    ensures
        r@ == penc(server_json(m@)),
{
    let mut mems: Vec<(String, Json)> = Vec::new();
    mems.push((String::from_str("id"), Json::Text(m.id.clone())));
    mems.push(
        (
            String::from_str("status"),
            Json::Text(
                String::from_str(
                    match m.status {
                        ConfigMessageStatus::Okay => "Ok",
                        ConfigMessageStatus::Processing => "Processing",
                        ConfigMessageStatus::Error => "Error",
                    },
                ),
            ),
        ),
    );
    mems.push((String::from_str("message"), Json::Text(m.message.clone())));
    let j = Json::Obj(mems);
    proof {
        let mv = j->Obj_0@;
        lemma_jview_members_index(mv, 0);
        assert(jview_members(mv, 0) =~= server_json(m@)->Obj_0);
    }
    json_to_string(&j)
}

/// A worker's reply read from its wire text, as [`server_of_json`] reads
/// it after [`pjson`].
pub fn parse_server_message(s: &str) -> (r: Option<ServerMessage>)
    ensures
        match pjson(s@) {
            Option::None => r is None,
            Option::Some(jv) => match server_of_json(jv) {
                Option::None => r is None,
                Option::Some(mv) => r matches Option::Some(m) && m@ == mv,
            },
        },
{
    let j = match json_parse(s) {
        Option::None => {
            return Option::None;
        },
        Option::Some(j) => j,
    };
    let o = match &j {
        Json::Obj(o) => o,
        _ => {
            return Option::None;
        },
    };
    let id = get_str_field(o, "id");
    let st = get_str_field(o, "status");
    let msg = get_str_field(o, "message");
    match (id, st, msg) {
        (Option::Some(id), Option::Some(st), Option::Some(msg)) => {
            if str_eq(st.as_str(), "Ok") {
                Option::Some(
                    ServerMessage { id: id, status: ConfigMessageStatus::Okay, message: msg },
                )
            } else if str_eq(st.as_str(), "Processing") {
                Option::Some(
                    ServerMessage {
                        id: id,
                        status: ConfigMessageStatus::Processing,
                        message: msg,
                    },
                )
            } else if str_eq(st.as_str(), "Error") {
                Option::Some(
                    ServerMessage { id: id, status: ConfigMessageStatus::Error, message: msg },
                )
            } else {
                Option::None
            }
        },
        _ => Option::None,
    }
}

} // verus!

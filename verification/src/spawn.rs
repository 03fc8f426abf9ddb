//! The worker spawner's decisions: which worker ids a listener starts
//! with, the exact argument vector a child is executed with, and the
//! listener description handed over in the handshake. The fork, exec and
//! socket work itself happens outside the library.

use vstd::prelude::*;
use vstd::string::StringExecFns;

use crate::data::ProxyType;
use crate::json::{dec_int, dec_nat, jview, jview_members, lemma_jview_members_index, penc,
    pjson, Json, JsonV};
use crate::state::{ProxyState, ProxyStateV};
use crate::store::{state_json, state_of, state_of_json, state_to_json};

verus! {

/// What one listener is configured to run: its kind, bind point, worker
/// count, channel buffer sizes, logging, and initial routing state.
pub struct ListenerSpec {
    pub proxy_type: ProxyType,
    pub address: String,
    pub port: u16,
    pub worker_count: u32,
    pub channel_buffer_size: usize,
    pub channel_max_buffer_size: usize,
    pub log_target: String,
    pub log_level: String,
    pub state: ProxyState,
}

impl ListenerSpec {
    /// The listener where it is an HTTP one.
    pub fn to_http(&self) -> (r: Option<&ListenerSpec>)
        ensures
            r is Some <==> self.proxy_type == ProxyType::HTTP,
            r matches Option::Some(s) ==> s == self,
    {
        if matches!(self.proxy_type, ProxyType::HTTP) {
            Option::Some(self)
        } else {
            Option::None
        }
    }

    /// The listener where it is an HTTPS one.
    pub fn to_tls(&self) -> (r: Option<&ListenerSpec>)
        ensures
            r is Some <==> self.proxy_type == ProxyType::HTTPS,
            r matches Option::Some(s) ==> s == self,
    {
        if matches!(self.proxy_type, ProxyType::HTTPS) {
            Option::Some(self)
        } else {
            Option::None
        }
    }
}

/// The decimal text of a number.
pub fn format_u64(n: u64) -> (r: String)
    ensures
        r@ == dec_nat(n as nat),
{
    let mut out = String::new();
    crate::json::write_u64_text(n, &mut out);
    out
}

/// The decimal text of a signed number.
pub fn format_i64(n: i64) -> (r: String)
    ensures
        r@ == dec_int(n as int),
{
    let mut out = String::new();
    crate::json::write_i64_text(n, &mut out);
    out
}

/// The ids a listener's workers start under: `1 .. count` first, then the
/// final worker under id `0`, as the master has always spawned them.
pub fn worker_ids(count: u32) -> (r: Vec<u32>)
    ensures
        r@.len() == (if count == 0 {
            1int
        } else {
            count as int
        }),
        forall|k: int| 0 <= k < r@.len() - 1 ==> #[trigger] r@[k] == k + 1,
        r@.last() == 0u32,
{
    let mut r: Vec<u32> = Vec::new();
    let mut i: u32 = 1;
    while i < count
        invariant
            1 <= i <= count || (count == 0 && i == 1),
            r@.len() == i - 1,
            forall|k: int| 0 <= k < r@.len() ==> #[trigger] r@[k] == k + 1,
        decreases count - i,
    {
        r.push(i);
        i = i + 1;
    }
    r.push(0);
    r
}

/// The argument vector a worker child is executed with: the `worker`
/// sub-mode, the inherited socket fd, the listener tag, the worker id,
/// and the channel buffer target.
pub fn worker_args(fd: i32, tag: &str, id: u32, channel_buffer_size: usize) -> (r: Vec<String>)
    ensures
        r@.len() == 9,
        r@[0]@ == "worker"@,
        r@[1]@ == "--fd"@,
        r@[2]@ == dec_int(fd as int),
        r@[3]@ == "--tag"@,
        r@[4]@ == tag@,
        r@[5]@ == "--id"@,
        r@[6]@ == dec_nat(id as nat),
        r@[7]@ == "--channel-buffer-size"@,
        r@[8]@ == dec_nat(channel_buffer_size as nat),
{
    let mut r: Vec<String> = Vec::new();
    r.push(String::from_str("worker"));
    r.push(String::from_str("--fd"));
    r.push(format_i64(fd as i64));
    r.push(String::from_str("--tag"));
    r.push(String::from_str(tag));
    r.push(String::from_str("--id"));
    r.push(format_u64(id as u64));
    r.push(String::from_str("--channel-buffer-size"));
    r.push(format_u64(channel_buffer_size as u64));
    r
}

/// The argument vector a replacement master is executed with during the
/// upgrade handoff: the `upgrade` sub-mode and the control socket fd.
pub fn upgrade_args(fd: i32) -> (r: Vec<String>)
    ensures
        r@.len() == 3,
        r@[0]@ == "upgrade"@,
        r@[1]@ == "--fd"@,
        r@[2]@ == dec_int(fd as int),
{
    let mut r: Vec<String> = Vec::new();
    r.push(String::from_str("upgrade"));
    r.push(String::from_str("--fd"));
    r.push(format_i64(fd as i64));
    r
}

/// The name a worker logs under: `tag-id`.
pub fn worker_log_name(tag: &str, id: u32) -> (r: String)
    ensures
        r@ == tag@ + seq!['-'] + dec_nat(id as nat),
{
    let mut out = String::from_str(tag);
    crate::json::push_char(&mut out, '-');
    crate::json::write_u64_text(id as u64, &mut out);
    out
}


/// Model of a [`ListenerSpec`].
pub struct ListenerSpecV {
    pub proxy_type: ProxyType,
    pub address: Seq<char>,
    pub port: u16,
    pub worker_count: u32,
    pub channel_buffer_size: usize,
    pub channel_max_buffer_size: usize,
    pub log_target: Seq<char>,
    pub log_level: Seq<char>,
    pub state: ProxyStateV,
}

impl View for ListenerSpec {
    type V = ListenerSpecV;

    open spec fn view(&self) -> ListenerSpecV {
        ListenerSpecV {
            proxy_type: self.proxy_type,
            address: self.address@,
            port: self.port,
            worker_count: self.worker_count,
            channel_buffer_size: self.channel_buffer_size,
            channel_max_buffer_size: self.channel_max_buffer_size,
            log_target: self.log_target@,
            log_level: self.log_level@,
            state: self.state@,
        }
    }
}

/// Wire shape of the handshake frame: the listener description a freshly
/// spawned worker reads first.
pub open spec fn listener_json(l: ListenerSpecV) -> JsonV {
    JsonV::Obj(
        seq![
            ("proxy_type"@, JsonV::Text(l.proxy_type.spec_wire_name())),
            ("address"@, JsonV::Text(l.address)),
            ("port"@, JsonV::Num(l.port as int)),
            ("worker_count"@, JsonV::Num(l.worker_count as int)),
            ("channel_buffer_size"@, JsonV::Num(l.channel_buffer_size as int)),
            ("channel_max_buffer_size"@, JsonV::Num(l.channel_max_buffer_size as int)),
            ("log_target"@, JsonV::Text(l.log_target)),
            ("log_level"@, JsonV::Text(l.log_level)),
            ("state"@, state_json(l.state)),
        ],
    )
}

/// The handshake read back: every field present and in range, or nothing.
/// Extra members are ignored, as a lenient record reader behaves.
pub open spec fn listener_of_json(j: JsonV) -> Option<ListenerSpecV> {
    match j {
        JsonV::Obj(o) => {
            let pt = crate::codec::get_str(o, "proxy_type"@);
            let addr = crate::codec::get_str(o, "address"@);
            let port = crate::codec::get_num(o, "port"@);
            let wc = crate::codec::get_num(o, "worker_count"@);
            let cbs = crate::codec::get_num(o, "channel_buffer_size"@);
            let cmbs = crate::codec::get_num(o, "channel_max_buffer_size"@);
            let lt = crate::codec::get_str(o, "log_target"@);
            let ll = crate::codec::get_str(o, "log_level"@);
            let st = crate::codec::obj_get(o, "state"@);
            match (pt, addr, port, wc, cbs, cmbs, lt, ll, st) {
                (
                    Option::Some(pt),
                    Option::Some(addr),
                    Option::Some(port),
                    Option::Some(wc),
                    Option::Some(cbs),
                    Option::Some(cmbs),
                    Option::Some(lt),
                    Option::Some(ll),
                    Option::Some(st),
                ) => {
                    let kind: Option<ProxyType> = if pt == "HTTP"@ {
                        Option::Some(ProxyType::HTTP)
                    } else if pt == "HTTPS"@ {
                        Option::Some(ProxyType::HTTPS)
                    } else if pt == "TCP"@ {
                        Option::Some(ProxyType::TCP)
                    } else {
                        Option::None
                    };
                    match (kind, state_of_json(st)) {
                        (Option::Some(kind), Option::Some(stv)) => {
                            if 0 <= port < 65536 && 0 <= wc < 0x1_0000_0000 && 0 <= cbs
                                <= 0xFFFF_FFFF && 0 <= cmbs <= 0xFFFF_FFFF {
                                Option::Some(
                                    ListenerSpecV {
                                        proxy_type: kind,
                                        address: addr,
                                        port: port as u16,
                                        worker_count: wc as u32,
                                        channel_buffer_size: cbs as usize,
                                        channel_max_buffer_size: cmbs as usize,
                                        log_target: lt,
                                        log_level: ll,
                                        state: stv,
                                    },
                                )
                            } else {
                                Option::None
                            }
                        },
                        _ => Option::None,
                    }
                },
                _ => Option::None,
            }
        },
        _ => Option::None,
    }
}

/// A handshake's wire shape reads back to the listener itself, provided
/// its sizes fit the wire's 32-bit bound.
pub proof fn lemma_listener_roundtrip(l: ListenerSpecV)
    requires
        l.channel_buffer_size <= 0xFFFF_FFFF,
        l.channel_max_buffer_size <= 0xFFFF_FFFF,
    ensures
        listener_of_json(listener_json(l)) == Option::Some(l),
{
    reveal_strlit("proxy_type");
    reveal_strlit("address");
    reveal_strlit("port");
    reveal_strlit("worker_count");
    reveal_strlit("channel_buffer_size");
    reveal_strlit("channel_max_buffer_size");
    reveal_strlit("log_target");
    reveal_strlit("log_level");
    reveal_strlit("state");
    reveal_strlit("HTTP");
    reveal_strlit("HTTPS");
    reveal_strlit("TCP");
    assert("proxy_type"@.len() == 10);
    assert("address"@.len() == 7);
    assert("port"@.len() == 4);
    assert("worker_count"@.len() == 12);
    assert("channel_buffer_size"@.len() == 19);
    assert("channel_max_buffer_size"@.len() == 23);
    assert("log_target"@.len() == 10);
    assert("log_level"@.len() == 9);
    assert("state"@.len() == 5);
    assert("proxy_type"@[0] == 'p');
    assert("log_target"@[0] == 'l');
    assert("HTTP"@.len() == 4);
    assert("HTTPS"@.len() == 5);
    assert("TCP"@.len() == 3);
    assert("HTTP"@[0] == 'H');
    assert("TCP"@[0] == 'T');
    let o = listener_json(l)->Obj_0;
    let e0 = o[0];
    let e1 = o[1];
    let e2 = o[2];
    let e3 = o[3];
    let e4 = o[4];
    let e5 = o[5];
    let e6 = o[6];
    let e7 = o[7];
    let e8 = o[8];
    let t0: Seq<(Seq<char>, JsonV)> = o.skip(1);
    assert(t0.len() == 8);
    assert(t0[0] == e1);
    assert(t0[1] == e2);
    assert(t0[2] == e3);
    assert(t0[3] == e4);
    assert(t0[4] == e5);
    assert(t0[5] == e6);
    assert(t0[6] == e7);
    assert(t0[7] == e8);
    assert(crate::codec::keyless(t0, "proxy_type"@)) by {
        assert forall|i: int| 0 <= i < t0.len() implies (#[trigger] t0[i]).0 != "proxy_type"@ by {
            if i == 0 {
                assert(t0[i] == e1);
            } else if i == 1 {
                assert(t0[i] == e2);
            } else if i == 2 {
                assert(t0[i] == e3);
            } else if i == 3 {
                assert(t0[i] == e4);
            } else if i == 4 {
                assert(t0[i] == e5);
            } else if i == 5 {
                assert(t0[i] == e6);
            } else if i == 6 {
                assert(t0[i] == e7);
            } else if i == 7 {
                assert(t0[i] == e8);
            }
        }
    }
    assert(o =~= o.take(0) + seq![e0] + t0);
    crate::codec::lemma_obj_get_hit(o.take(0), "proxy_type"@, e0.1, t0);
    let t1: Seq<(Seq<char>, JsonV)> = o.skip(2);
    assert(t1.len() == 7);
    assert(t1[0] == e2);
    assert(t1[1] == e3);
    assert(t1[2] == e4);
    assert(t1[3] == e5);
    assert(t1[4] == e6);
    assert(t1[5] == e7);
    assert(t1[6] == e8);
    assert(crate::codec::keyless(t1, "address"@)) by {
        assert forall|i: int| 0 <= i < t1.len() implies (#[trigger] t1[i]).0 != "address"@ by {
            if i == 0 {
                assert(t1[i] == e2);
            } else if i == 1 {
                assert(t1[i] == e3);
            } else if i == 2 {
                assert(t1[i] == e4);
            } else if i == 3 {
                assert(t1[i] == e5);
            } else if i == 4 {
                assert(t1[i] == e6);
            } else if i == 5 {
                assert(t1[i] == e7);
            } else if i == 6 {
                assert(t1[i] == e8);
            }
        }
    }
    assert(o =~= o.take(1) + seq![e1] + t1);
    crate::codec::lemma_obj_get_hit(o.take(1), "address"@, e1.1, t1);
    let t2: Seq<(Seq<char>, JsonV)> = o.skip(3);
    assert(t2.len() == 6);
    assert(t2[0] == e3);
    assert(t2[1] == e4);
    assert(t2[2] == e5);
    assert(t2[3] == e6);
    assert(t2[4] == e7);
    assert(t2[5] == e8);
    assert(crate::codec::keyless(t2, "port"@)) by {
        assert forall|i: int| 0 <= i < t2.len() implies (#[trigger] t2[i]).0 != "port"@ by {
            if i == 0 {
                assert(t2[i] == e3);
            } else if i == 1 {
                assert(t2[i] == e4);
            } else if i == 2 {
                assert(t2[i] == e5);
            } else if i == 3 {
                assert(t2[i] == e6);
            } else if i == 4 {
                assert(t2[i] == e7);
            } else if i == 5 {
                assert(t2[i] == e8);
            }
        }
    }
    assert(o =~= o.take(2) + seq![e2] + t2);
    crate::codec::lemma_obj_get_hit(o.take(2), "port"@, e2.1, t2);
    let t3: Seq<(Seq<char>, JsonV)> = o.skip(4);
    assert(t3.len() == 5);
    assert(t3[0] == e4);
    assert(t3[1] == e5);
    assert(t3[2] == e6);
    assert(t3[3] == e7);
    assert(t3[4] == e8);
    assert(crate::codec::keyless(t3, "worker_count"@)) by {
        assert forall|i: int| 0 <= i < t3.len() implies (#[trigger] t3[i]).0 != "worker_count"@ by {
            if i == 0 {
                assert(t3[i] == e4);
            } else if i == 1 {
                assert(t3[i] == e5);
            } else if i == 2 {
                assert(t3[i] == e6);
            } else if i == 3 {
                assert(t3[i] == e7);
            } else if i == 4 {
                assert(t3[i] == e8);
            }
        }
    }
    assert(o =~= o.take(3) + seq![e3] + t3);
    crate::codec::lemma_obj_get_hit(o.take(3), "worker_count"@, e3.1, t3);
    let t4: Seq<(Seq<char>, JsonV)> = o.skip(5);
    assert(t4.len() == 4);
    assert(t4[0] == e5);
    assert(t4[1] == e6);
    assert(t4[2] == e7);
    assert(t4[3] == e8);
    assert(crate::codec::keyless(t4, "channel_buffer_size"@)) by {
        assert forall|i: int| 0 <= i < t4.len() implies (#[trigger] t4[i]).0 != "channel_buffer_size"@ by {
            if i == 0 {
                assert(t4[i] == e5);
            } else if i == 1 {
                assert(t4[i] == e6);
            } else if i == 2 {
                assert(t4[i] == e7);
            } else if i == 3 {
                assert(t4[i] == e8);
            }
        }
    }
    assert(o =~= o.take(4) + seq![e4] + t4);
    crate::codec::lemma_obj_get_hit(o.take(4), "channel_buffer_size"@, e4.1, t4);
    let t5: Seq<(Seq<char>, JsonV)> = o.skip(6);
    assert(t5.len() == 3);
    assert(t5[0] == e6);
    assert(t5[1] == e7);
    assert(t5[2] == e8);
    assert(crate::codec::keyless(t5, "channel_max_buffer_size"@)) by {
        assert forall|i: int| 0 <= i < t5.len() implies (#[trigger] t5[i]).0 != "channel_max_buffer_size"@ by {
            if i == 0 {
                assert(t5[i] == e6);
            } else if i == 1 {
                assert(t5[i] == e7);
            } else if i == 2 {
                assert(t5[i] == e8);
            }
        }
    }
    assert(o =~= o.take(5) + seq![e5] + t5);
    crate::codec::lemma_obj_get_hit(o.take(5), "channel_max_buffer_size"@, e5.1, t5);
    let t6: Seq<(Seq<char>, JsonV)> = o.skip(7);
    assert(t6.len() == 2);
    assert(t6[0] == e7);
    assert(t6[1] == e8);
    assert(crate::codec::keyless(t6, "log_target"@)) by {
        assert forall|i: int| 0 <= i < t6.len() implies (#[trigger] t6[i]).0 != "log_target"@ by {
            if i == 0 {
                assert(t6[i] == e7);
            } else if i == 1 {
                assert(t6[i] == e8);
            }
        }
    }
    assert(o =~= o.take(6) + seq![e6] + t6);
    crate::codec::lemma_obj_get_hit(o.take(6), "log_target"@, e6.1, t6);
    let t7: Seq<(Seq<char>, JsonV)> = o.skip(8);
    assert(t7.len() == 1);
    assert(t7[0] == e8);
    assert(crate::codec::keyless(t7, "log_level"@)) by {
        assert forall|i: int| 0 <= i < t7.len() implies (#[trigger] t7[i]).0 != "log_level"@ by {
            if i == 0 {
                assert(t7[i] == e8);
            }
        }
    }
    assert(o =~= o.take(7) + seq![e7] + t7);
    crate::codec::lemma_obj_get_hit(o.take(7), "log_level"@, e7.1, t7);
    let t8: Seq<(Seq<char>, JsonV)> = o.skip(9);
    assert(t8.len() == 0);
    assert(crate::codec::keyless(t8, "state"@)) by {
        assert forall|i: int| 0 <= i < t8.len() implies (#[trigger] t8[i]).0 != "state"@ by {
        }
    }
    assert(o =~= o.take(8) + seq![e8] + t8);
    crate::codec::lemma_obj_get_hit(o.take(8), "state"@, e8.1, t8);
    crate::store::lemma_state_roundtrip(l.state);
}

/// Wire text of the handshake frame. The buffer sizes must fit the
/// wire's 32-bit bound, which the reader enforces.
pub fn encode_listener_spec(l: &ListenerSpec) -> (r: String)
    requires
        l.channel_buffer_size <= 0xFFFF_FFFF,
        l.channel_max_buffer_size <= 0xFFFF_FFFF,
    ensures
        r@ == penc(listener_json(l@)),
{
    let mut mems: Vec<(String, Json)> = Vec::new();
    mems.push(
        (
            String::from_str("proxy_type"),
            Json::Text(String::from_str(l.proxy_type.wire_name())),
        ),
    );
    mems.push((String::from_str("address"), Json::Text(l.address.clone())));
    mems.push((String::from_str("port"), Json::Num(l.port as i64)));
    mems.push((String::from_str("worker_count"), Json::Num(l.worker_count as i64)));
    mems.push(
        (String::from_str("channel_buffer_size"), Json::Num(l.channel_buffer_size as i64)),
    );
    mems.push(
        (
            String::from_str("channel_max_buffer_size"),
            Json::Num(l.channel_max_buffer_size as i64),
        ),
    );
    mems.push((String::from_str("log_target"), Json::Text(l.log_target.clone())));
    mems.push((String::from_str("log_level"), Json::Text(l.log_level.clone())));
    mems.push((String::from_str("state"), state_to_json(&l.state)));
    let j = Json::Obj(mems);
    proof {
        let mv = j->Obj_0@;
        lemma_jview_members_index(mv, 0);
        assert(jview_members(mv, 0) =~= listener_json(l@)->Obj_0);
    }
    crate::json::json_to_string(&j)
}

/// The handshake read from its wire text, as [`listener_of_json`] reads
/// it after [`pjson`].
pub fn parse_listener_spec(s: &str) -> (r: Option<ListenerSpec>)
    ensures
        match pjson(s@) {
            Option::None => r is None,
            Option::Some(jv) => match listener_of_json(jv) {
                Option::None => r is None,
                Option::Some(lv) => r matches Option::Some(l) && l@ == lv,
            },
        },
{
    let j = match crate::json::json_parse(s) {
        Option::None => {
            return Option::None;
        },
        Option::Some(j) => j,
    };
    let o = match &j {
        Json::Obj(o) => o,
        _ => {
            return Option::None;
        },
    };
    let pt = match crate::codec::get_str_field(o, "proxy_type") {
        Option::Some(t) => t,
        Option::None => {
            return Option::None;
        },
    };
    let addr = match crate::codec::get_str_field(o, "address") {
        Option::Some(t) => t,
        Option::None => {
            return Option::None;
        },
    };
    let port = match crate::codec::get_num_field(o, "port") {
        Option::Some(x) => x,
        Option::None => {
            return Option::None;
        },
    };
    let wc = match crate::codec::get_num_field(o, "worker_count") {
        Option::Some(x) => x,
        Option::None => {
            return Option::None;
        },
    };
    let cbs = match crate::codec::get_num_field(o, "channel_buffer_size") {
        Option::Some(x) => x,
        Option::None => {
            return Option::None;
        },
    };
    let cmbs = match crate::codec::get_num_field(o, "channel_max_buffer_size") {
        Option::Some(x) => x,
        Option::None => {
            return Option::None;
        },
    };
    let lt = match crate::codec::get_str_field(o, "log_target") {
        Option::Some(t) => t,
        Option::None => {
            return Option::None;
        },
    };
    let ll = match crate::codec::get_str_field(o, "log_level") {
        Option::Some(t) => t,
        Option::None => {
            return Option::None;
        },
    };
    let st = match crate::codec::obj_value(o, "state") {
        Option::Some(st) => st,
        Option::None => {
            return Option::None;
        },
    };
    let kind = if crate::codec::str_eq(pt.as_str(), "HTTP") {
        ProxyType::HTTP
    } else if crate::codec::str_eq(pt.as_str(), "HTTPS") {
        ProxyType::HTTPS
    } else if crate::codec::str_eq(pt.as_str(), "TCP") {
        ProxyType::TCP
    } else {
        return Option::None;
    };
    let stv = match state_of(st) {
        Option::Some(stv) => stv,
        Option::None => {
            return Option::None;
        },
    };
    if 0 <= port && port < 65536 && 0 <= wc && wc < 0x1_0000_0000i64 && 0 <= cbs && cbs
        <= 0xFFFF_FFFFi64 && 0 <= cmbs && cmbs <= 0xFFFF_FFFFi64 {
        Option::Some(
            ListenerSpec {
                proxy_type: kind,
                address: addr,
                port: port as u16,
                worker_count: wc as u32,
                channel_buffer_size: cbs as u32 as usize,
                channel_max_buffer_size: cmbs as u32 as usize,
                log_target: lt,
                log_level: ll,
                state: stv,
            },
        )
    } else {
        Option::None
    }
}

/// Where the master upgrade stands. `Okay` and `Failed` are terminal: on
/// `Okay` the old master exits, on `Failed` it keeps running untouched.
#[derive(Debug, Clone, Copy, PartialEq, Eq, Structural)]
pub enum UpgradePhase {
    Idle,
    Draining,
    Handoff,
    Okay,
    Failed,
}

/// The upgrade coordinator's one-step transition: from `Idle` the master
/// drains, then hands off; an acknowledged handoff ends `Okay`; any step
/// that fails ends `Failed`; the terminal phases never move again.
pub open spec fn spec_upgrade_step(p: UpgradePhase, success: bool) -> UpgradePhase {
    match p {
        UpgradePhase::Idle => if success {
            UpgradePhase::Draining
        } else {
            UpgradePhase::Failed
        },
        UpgradePhase::Draining => if success {
            UpgradePhase::Handoff
        } else {
            UpgradePhase::Failed
        },
        UpgradePhase::Handoff => if success {
            UpgradePhase::Okay
        } else {
            UpgradePhase::Failed
        },
        UpgradePhase::Okay => UpgradePhase::Okay,
        UpgradePhase::Failed => UpgradePhase::Failed,
    }
}

/// One step of the upgrade; see [`spec_upgrade_step`].
pub fn upgrade_step(p: UpgradePhase, success: bool) -> (r: UpgradePhase)
    ensures
        r == spec_upgrade_step(p, success),
{
    match p {
        UpgradePhase::Idle => if success {
            UpgradePhase::Draining
        } else {
            UpgradePhase::Failed
        },
        UpgradePhase::Draining => if success {
            UpgradePhase::Handoff
        } else {
            UpgradePhase::Failed
        },
        UpgradePhase::Handoff => if success {
            UpgradePhase::Okay
        } else {
            UpgradePhase::Failed
        },
        UpgradePhase::Okay => UpgradePhase::Okay,
        UpgradePhase::Failed => UpgradePhase::Failed,
    }
}

/// Terminal phases never move again, whatever else happens.
pub proof fn lemma_upgrade_terminal(p: UpgradePhase, success: bool)
    requires
        p == UpgradePhase::Okay || p == UpgradePhase::Failed,
    ensures
        spec_upgrade_step(p, success) == p,
{
}

} // verus!

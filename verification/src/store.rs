//! The persisted shape of the configuration state: one entry per listener
//! tag, each carrying the proxy kind and the listener's routing state, and
//! the master's store of those entries.

use vstd::prelude::*;
use vstd::string::StringExecFns;

use crate::codec::{
    front_json, front_of_obj, get_str, instance_json, instance_of_obj, obj_get, str_eq,
};
use crate::data::{HttpFront, HttpFrontV, Instance, InstanceV, Order, ProtocolError,
    ProtocolErrorV};
use crate::json::{
    json_parse, json_to_string, jview, jview_items, jview_members, lemma_jview_items_index,
    lemma_jview_members_index, penc, pjson, Json, JsonV,
};
use crate::state::{certs_view, clone_front, clone_instance, fronts_view, instances_view,
    orders_view, ProxyState, ProxyStateV};

verus! {

/// One listener's accumulated state, tagged by its kind. A TCP listener
/// carries no replayable routing state.
#[derive(Debug, Clone, PartialEq, Eq)]
pub enum ConfigState {
    Http(ProxyState),
    Tls(ProxyState),
    Tcp,
}

/// Model of a [`ConfigState`].
pub enum ConfigStateV {
    Http(ProxyStateV),
    Tls(ProxyStateV),
    Tcp,
}

impl View for ConfigState {
    type V = ConfigStateV;

    open spec fn view(&self) -> ConfigStateV {
        match self {
            ConfigState::Http(s) => ConfigStateV::Http(s@),
            ConfigState::Tls(s) => ConfigStateV::Tls(s@),
            ConfigState::Tcp => ConfigStateV::Tcp,
        }
    }
}

/// One persisted entry: a listener tag and its state.
#[derive(Debug, Clone, PartialEq, Eq)]
pub struct ProxyDeserializer {
    pub tag: String,
    pub state: ConfigState,
}

/// Model of a [`ProxyDeserializer`].
pub struct ProxyDeserializerV {
    pub tag: Seq<char>,
    pub state: ConfigStateV,
}

impl View for ProxyDeserializer {
    type V = ProxyDeserializerV;

    open spec fn view(&self) -> ProxyDeserializerV {
        ProxyDeserializerV { tag: self.tag@, state: self.state@ }
    }
}

/// Wire shape of one listener's routing state.
pub open spec fn state_json(s: ProxyStateV) -> JsonV {
    JsonV::Obj(
        seq![
            ("fronts"@, JsonV::Arr(Seq::new(s.fronts.len(), |i: int| front_json(s.fronts[i])))),
            (
                "instances"@,
                JsonV::Arr(Seq::new(s.instances.len(), |i: int| instance_json(s.instances[i]))),
            ),
            (
                "certificates"@,
                JsonV::Arr(
                    Seq::new(s.certificates.len(), |i: int| JsonV::Text(s.certificates[i])),
                ),
            ),
        ],
    )
}

/// The fronts read back from an array of wire shapes.
pub open spec fn fronts_of_items(a: Seq<JsonV>) -> Option<Seq<HttpFrontV>>
    decreases a.len(),
{
    if a.len() == 0 {
        Option::Some(Seq::empty())
    } else {
        match a[0] {
            JsonV::Obj(o) => match front_of_obj(o) {
                Option::Some(f) => match fronts_of_items(a.drop_first()) {
                    Option::Some(t) => Option::Some(seq![f] + t),
                    Option::None => Option::None,
                },
                Option::None => Option::None,
            },
            _ => Option::None,
        }
    }
}

/// The backend instances read back from an array of wire shapes.
pub open spec fn instances_of_items(a: Seq<JsonV>) -> Option<Seq<InstanceV>>
    decreases a.len(),
{
    if a.len() == 0 {
        Option::Some(Seq::empty())
    } else {
        match a[0] {
            JsonV::Obj(o) => match instance_of_obj(o) {
                Option::Some(f) => match instances_of_items(a.drop_first()) {
                    Option::Some(t) => Option::Some(seq![f] + t),
                    Option::None => Option::None,
                },
                Option::None => Option::None,
            },
            _ => Option::None,
        }
    }
}

/// The certificates read back from an array of strings.
pub open spec fn certs_of_items(a: Seq<JsonV>) -> Option<Seq<Seq<char>>>
    decreases a.len(),
{
    if a.len() == 0 {
        Option::Some(Seq::empty())
    } else {
        match a[0] {
            JsonV::Text(c) => match certs_of_items(a.drop_first()) {
                Option::Some(t) => Option::Some(seq![c] + t),
                Option::None => Option::None,
            },
            _ => Option::None,
        }
    }
}

/// A listener's routing state read back from its wire shape. A missing
/// list counts as empty, as a fresh listener writes none.
pub open spec fn state_of_json(j: JsonV) -> Option<ProxyStateV> {
    match j {
        JsonV::Obj(o) => {
            let fr = match obj_get(o, "fronts"@) {
                Option::None => Option::Some(Seq::<HttpFrontV>::empty()),
                Option::Some(JsonV::Arr(a)) => fronts_of_items(a),
                Option::Some(_) => Option::None,
            };
            let ins = match obj_get(o, "instances"@) {
                Option::None => Option::Some(Seq::<InstanceV>::empty()),
                Option::Some(JsonV::Arr(a)) => instances_of_items(a),
                Option::Some(_) => Option::None,
            };
            let cs = match obj_get(o, "certificates"@) {
                Option::None => Option::Some(Seq::<Seq<char>>::empty()),
                Option::Some(JsonV::Arr(a)) => certs_of_items(a),
                Option::Some(_) => Option::None,
            };
            match (fr, ins, cs) {
                (Option::Some(f), Option::Some(i), Option::Some(c)) => Option::Some(
                    ProxyStateV { fronts: f, instances: i, certificates: c },
                ),
                _ => Option::None,
            }
        },
        _ => Option::None,
    }
}

/// Wire shape of one persisted entry.
pub open spec fn entry_json(e: ProxyDeserializerV) -> JsonV {
    JsonV::Obj(
        seq![
            ("tag"@, JsonV::Text(e.tag)),
            (
                "proxy_type"@,
                JsonV::Text(
                    match e.state {
                        ConfigStateV::Http(_) => "HTTP"@,
                        ConfigStateV::Tls(_) => "HTTPS"@,
                        ConfigStateV::Tcp => "TCP"@,
                    },
                ),
            ),
            (
                "state"@,
                match e.state {
                    ConfigStateV::Http(s) => state_json(s),
                    ConfigStateV::Tls(s) => state_json(s),
                    ConfigStateV::Tcp => JsonV::Obj(Seq::empty()),
                },
            ),
        ],
    )
}

/// The member names a persisted entry may carry: anything else is
/// refused, as a closed field reader behaves.
pub open spec fn entry_key_ok(k: Seq<char>) -> bool {
    k == "tag"@ || k == "proxy_type"@ || k == "state"@
}

/// Every member of `o` carries a persisted-entry member name.
pub open spec fn entry_keys_ok(o: Seq<(Seq<char>, JsonV)>) -> bool {
    forall|i: int| 0 <= i < o.len() ==> entry_key_ok((#[trigger] o[i]).0)
}

/// One persisted entry read back: members outside the entry's three are
/// refused, then `proxy_type`, `tag` and `state` are required, in that
/// order of complaint, as the persisted format demands.
pub open spec fn entry_of_json(j: JsonV) -> Result<ProxyDeserializerV, ProtocolErrorV> {
    match j {
        JsonV::Obj(o) => if !entry_keys_ok(o) {
            Result::Err(ProtocolErrorV::Decode)
        } else { match get_str(o, "proxy_type"@) {
            Option::None => Result::Err(ProtocolErrorV::MissingField("proxy_type"@)),
            Option::Some(pt) => match get_str(o, "tag"@) {
                Option::None => Result::Err(ProtocolErrorV::MissingField("tag"@)),
                Option::Some(tag) => match obj_get(o, "state"@) {
                    Option::None => Result::Err(ProtocolErrorV::MissingField("state"@)),
                    Option::Some(st) => {
                        if pt == "HTTP"@ {
                            match state_of_json(st) {
                                Option::Some(s) => Result::Ok(
                                    ProxyDeserializerV { tag, state: ConfigStateV::Http(s) },
                                ),
                                Option::None => Result::Err(ProtocolErrorV::Decode),
                            }
                        } else if pt == "HTTPS"@ {
                            match state_of_json(st) {
                                Option::Some(s) => Result::Ok(
                                    ProxyDeserializerV { tag, state: ConfigStateV::Tls(s) },
                                ),
                                Option::None => Result::Err(ProtocolErrorV::Decode),
                            }
                        } else if pt == "TCP"@ {
                            Result::Ok(ProxyDeserializerV { tag, state: ConfigStateV::Tcp })
                        } else {
                            Result::Err(ProtocolErrorV::BadProxyKind)
                        }
                    },
                },
            },
        } },
        _ => Result::Err(ProtocolErrorV::Decode),
    }
}

/// An array of front wire shapes reads back to the fronts themselves.
proof fn lemma_fronts_items_roundtrip(fs: Seq<HttpFrontV>)
    ensures
        fronts_of_items(Seq::new(fs.len(), |i: int| front_json(fs[i]))) == Option::Some(fs),
    decreases fs.len(),
{
    let a = Seq::new(fs.len(), |i: int| front_json(fs[i]));
    if fs.len() > 0 {
        crate::codec::lemma_front_roundtrip(fs[0]);
        lemma_fronts_items_roundtrip(fs.drop_first());
        assert(a.drop_first() =~= Seq::new(
            fs.drop_first().len(),
            |i: int| front_json(fs.drop_first()[i]),
        ));
        assert(seq![fs[0]] + fs.drop_first() =~= fs);
    } else {
        assert(a.len() == 0);
    }
}

/// An array of instance wire shapes reads back to the instances.
proof fn lemma_instances_items_roundtrip(xs: Seq<InstanceV>)
    ensures
        instances_of_items(Seq::new(xs.len(), |i: int| instance_json(xs[i]))) == Option::Some(
            xs,
        ),
    decreases xs.len(),
{
    let a = Seq::new(xs.len(), |i: int| instance_json(xs[i]));
    if xs.len() > 0 {
        crate::codec::lemma_instance_roundtrip(xs[0]);
        lemma_instances_items_roundtrip(xs.drop_first());
        assert(a.drop_first() =~= Seq::new(
            xs.drop_first().len(),
            |i: int| instance_json(xs.drop_first()[i]),
        ));
        assert(seq![xs[0]] + xs.drop_first() =~= xs);
    } else {
        assert(a.len() == 0);
    }
}

/// An array of certificate strings reads back to the certificates.
proof fn lemma_certs_items_roundtrip(cs: Seq<Seq<char>>)
    ensures
        certs_of_items(Seq::new(cs.len(), |i: int| JsonV::Text(cs[i]))) == Option::Some(cs),
    decreases cs.len(),
{
    let a = Seq::new(cs.len(), |i: int| JsonV::Text(cs[i]));
    if cs.len() > 0 {
        lemma_certs_items_roundtrip(cs.drop_first());
        assert(a.drop_first() =~= Seq::new(
            cs.drop_first().len(),
            |i: int| JsonV::Text(cs.drop_first()[i]),
        ));
        assert(seq![cs[0]] + cs.drop_first() =~= cs);
    } else {
        assert(a.len() == 0);
    }
}

/// A routing state's wire shape reads back to the state itself.
pub proof fn lemma_state_roundtrip(s: ProxyStateV)
    ensures
        state_of_json(state_json(s)) == Option::Some(s),
{
    reveal_strlit("fronts");
    reveal_strlit("instances");
    reveal_strlit("certificates");
    assert("fronts"@.len() == 6);
    assert("instances"@.len() == 9);
    assert("certificates"@.len() == 12);
    let o = state_json(s)->Obj_0;
    let ef = o[0];
    let ei = o[1];
    let ec = o[2];
    let t1 = seq![ei, ec];
    assert(t1[0] == ei);
    assert(t1[1] == ec);
    crate::codec::lemma_obj_get_hit(Seq::empty(), "fronts"@, ef.1, t1);
    assert(o =~= Seq::empty() + seq![(("fronts"@), ef.1)] + t1);
    let t2 = seq![ec];
    assert(t2[0] == ec);
    crate::codec::lemma_obj_get_hit(seq![ef], "instances"@, ei.1, t2);
    assert(o =~= seq![ef] + seq![(("instances"@), ei.1)] + t2);
    let t3: Seq<(Seq<char>, JsonV)> = Seq::empty();
    crate::codec::lemma_obj_get_hit(seq![ef, ei], "certificates"@, ec.1, t3);
    assert(o =~= seq![ef, ei] + seq![(("certificates"@), ec.1)] + t3);
    lemma_fronts_items_roundtrip(s.fronts);
    lemma_instances_items_roundtrip(s.instances);
    lemma_certs_items_roundtrip(s.certificates);
}

/// A persisted entry's wire shape reads back to the entry itself: what
/// `save` writes per listener, `load` reads back unchanged.
pub proof fn lemma_entry_roundtrip(e: ProxyDeserializerV)
    ensures
        entry_of_json(entry_json(e)) == Result::<ProxyDeserializerV, ProtocolErrorV>::Ok(e),
{
    reveal_strlit("tag");
    reveal_strlit("proxy_type");
    reveal_strlit("state");
    reveal_strlit("HTTP");
    reveal_strlit("HTTPS");
    reveal_strlit("TCP");
    assert("tag"@.len() == 3);
    assert("proxy_type"@.len() == 10);
    assert("state"@.len() == 5);
    assert("HTTP"@.len() == 4);
    assert("HTTPS"@.len() == 5);
    assert("TCP"@.len() == 3);
    assert("HTTP"@[0] == 'H');
    assert("TCP"@[0] == 'T');
    assert("tag"@[0] == 't');
    let o = entry_json(e)->Obj_0;
    let et = o[0];
    let ep = o[1];
    let es = o[2];
    let t1 = seq![ep, es];
    assert(t1[0] == ep);
    assert(t1[1] == es);
    crate::codec::lemma_obj_get_hit(Seq::empty(), "tag"@, et.1, t1);
    assert(o =~= Seq::empty() + seq![(("tag"@), et.1)] + t1);
    let t2 = seq![es];
    assert(t2[0] == es);
    crate::codec::lemma_obj_get_hit(seq![et], "proxy_type"@, ep.1, t2);
    assert(o =~= seq![et] + seq![(("proxy_type"@), ep.1)] + t2);
    let t3: Seq<(Seq<char>, JsonV)> = Seq::empty();
    crate::codec::lemma_obj_get_hit(seq![et, ep], "state"@, es.1, t3);
    assert(o =~= seq![et, ep] + seq![(("state"@), es.1)] + t3);
    assert(entry_keys_ok(o)) by {
        assert forall|i: int| 0 <= i < o.len() implies entry_key_ok((#[trigger] o[i]).0) by {
            if i == 0 {
                assert(o[i] == et);
            } else if i == 1 {
                assert(o[i] == ep);
            } else {
                assert(o[i] == es);
            }
        }
    }
    match e.state {
        ConfigStateV::Http(s) => {
            lemma_state_roundtrip(s);
        },
        ConfigStateV::Tls(s) => {
            lemma_state_roundtrip(s);
        },
        ConfigStateV::Tcp => {},
    }
}

/// Wire text of one persisted entry, as one line of the state file.
pub fn encode_state_entry(e: &ProxyDeserializer) -> (r: String)
    ensures
        r@ == penc(entry_json(e@)),
{
    let j = entry_to_json(e);
    json_to_string(&j)
}

/// One persisted entry as a JSON value.
pub fn entry_to_json(e: &ProxyDeserializer) -> (r: Json)
    ensures
        jview(r) == entry_json(e@),
{
    let pt = match &e.state {
        ConfigState::Http(_) => "HTTP",
        ConfigState::Tls(_) => "HTTPS",
        ConfigState::Tcp => "TCP",
    };
    let st_json: Json = match &e.state {
        ConfigState::Http(s) => state_to_json(s),
        ConfigState::Tls(s) => state_to_json(s),
        ConfigState::Tcp => {
            let m: Vec<(String, Json)> = Vec::new();
            let j = Json::Obj(m);
            proof {
                assert(jview_members(j->Obj_0@, 0) =~= Seq::<(Seq<char>, JsonV)>::empty());
            }
            j
        },
    };
    let mut mems: Vec<(String, Json)> = Vec::new();
    mems.push((String::from_str("tag"), Json::Text(e.tag.clone())));
    mems.push((String::from_str("proxy_type"), Json::Text(String::from_str(pt))));
    mems.push((String::from_str("state"), st_json));
    let j = Json::Obj(mems);
    proof {
        let mv = j->Obj_0@;
        lemma_jview_members_index(mv, 0);
        assert(jview_members(mv, 0) =~= entry_json(e@)->Obj_0);
    }
    j
}

/// A listener state as a JSON value.
pub fn state_to_json(s: &ProxyState) -> (r: Json)
    ensures
        jview(r) == state_json(s@),
{
    let mut fr: Vec<Json> = Vec::new();
    let mut i: usize = 0;
    while i < s.fronts.len()
        invariant
            0 <= i <= s.fronts@.len(),
            fr@.len() == i,
            forall|k: int|
                0 <= k < i ==> jview(#[trigger] fr@[k]) == front_json(
                    fronts_view(s.fronts@)[k],
                ),
        decreases s.fronts@.len() - i,
    {
        let fj = crate::codec::front_to_json(&s.fronts[i]);
        fr.push(fj);
        i = i + 1;
    }
    let mut ins: Vec<Json> = Vec::new();
    let mut i: usize = 0;
    while i < s.instances.len()
        invariant
            0 <= i <= s.instances@.len(),
            ins@.len() == i,
            forall|k: int|
                0 <= k < i ==> jview(#[trigger] ins@[k]) == instance_json(
                    instances_view(s.instances@)[k],
                ),
        decreases s.instances@.len() - i,
    {
        let ij = crate::codec::instance_to_json(&s.instances[i]);
        ins.push(ij);
        i = i + 1;
    }
    let mut cs: Vec<Json> = Vec::new();
    let mut i: usize = 0;
    while i < s.certificates.len()
        invariant
            0 <= i <= s.certificates@.len(),
            cs@.len() == i,
            forall|k: int|
                0 <= k < i ==> jview(#[trigger] cs@[k]) == JsonV::Text(
                    certs_view(s.certificates@)[k],
                ),
        decreases s.certificates@.len() - i,
    {
        cs.push(Json::Text(s.certificates[i].clone()));
        i = i + 1;
    }
    let fa = Json::Arr(fr);
    let ia = Json::Arr(ins);
    let ca = Json::Arr(cs);
    proof {
        lemma_jview_items_index(fa->Arr_0@, 0);
        lemma_jview_items_index(ia->Arr_0@, 0);
        lemma_jview_items_index(ca->Arr_0@, 0);
        assert(jview_items(fa->Arr_0@, 0) =~= Seq::new(
            s@.fronts.len(),
            |i: int| front_json(s@.fronts[i]),
        ));
        assert(jview_items(ia->Arr_0@, 0) =~= Seq::new(
            s@.instances.len(),
            |i: int| instance_json(s@.instances[i]),
        ));
        assert(jview_items(ca->Arr_0@, 0) =~= Seq::new(
            s@.certificates.len(),
            |i: int| JsonV::Text(s@.certificates[i]),
        ));
    }
    let mut mems: Vec<(String, Json)> = Vec::new();
    mems.push((String::from_str("fronts"), fa));
    mems.push((String::from_str("instances"), ia));
    mems.push((String::from_str("certificates"), ca));
    let j = Json::Obj(mems);
    proof {
        let mv = j->Obj_0@;
        lemma_jview_members_index(mv, 0);
        assert(jview_members(mv, 0) =~= state_json(s@)->Obj_0);
    }
    j
}

/// The fronts of a wire array, as [`fronts_of_items`] reads them.
fn fronts_of(a: &Vec<Json>, i: usize) -> (r: Option<Vec<HttpFront>>)
    requires
        i <= a@.len(),
    ensures
        match fronts_of_items(jview_items(a@, 0).skip(i as int)) {
            Option::None => r is None,
            Option::Some(fs) => r matches Option::Some(v) && fronts_view(v@) == fs,
        },
    decreases a@.len() - i,
{
    proof {
        lemma_jview_items_index(a@, 0);
        assert(jview_items(a@, 0).skip(i as int).len() == a@.len() - i);
    }
    if i == a.len() {
        let out: Vec<HttpFront> = Vec::new();
        proof {
            assert(jview_items(a@, 0).skip(i as int) =~= Seq::<JsonV>::empty());
            assert(fronts_view(out@) =~= Seq::<HttpFrontV>::empty());
        }
        return Option::Some(out);
    }
    let ghost suf = jview_items(a@, 0).skip(i as int);
    proof {
        assert(suf[0] == jview(a@[i as int]));
        assert(suf.drop_first() =~= jview_items(a@, 0).skip(i as int + 1));
    }
    match &a[i] {
        Json::Obj(o) => match crate::codec::front_of(o) {
            Option::Some(f) => match fronts_of(a, i + 1) {
                Option::Some(t) => {
                    let ghost t0 = t@;
                    let mut out = t;
                    out.insert(0, f);
                    proof {
                        assert(out@.drop_first() =~= t0);
                        assert(fronts_view(out@) =~= seq![out@[0]@] + fronts_view(t0));
                    }
                    Option::Some(out)
                },
                Option::None => Option::None,
            },
            Option::None => Option::None,
        },
        _ => Option::None,
    }
}

/// The instances of a wire array, as [`instances_of_items`] reads them.
fn instances_of(a: &Vec<Json>, i: usize) -> (r: Option<Vec<Instance>>)
    requires
        i <= a@.len(),
    ensures
        match instances_of_items(jview_items(a@, 0).skip(i as int)) {
            Option::None => r is None,
            Option::Some(fs) => r matches Option::Some(v) && instances_view(v@) == fs,
        },
    decreases a@.len() - i,
{
    proof {
        lemma_jview_items_index(a@, 0);
        assert(jview_items(a@, 0).skip(i as int).len() == a@.len() - i);
    }
    if i == a.len() {
        let out: Vec<Instance> = Vec::new();
        proof {
            assert(jview_items(a@, 0).skip(i as int) =~= Seq::<JsonV>::empty());
            assert(instances_view(out@) =~= Seq::<InstanceV>::empty());
        }
        return Option::Some(out);
    }
    let ghost suf = jview_items(a@, 0).skip(i as int);
    proof {
        assert(suf[0] == jview(a@[i as int]));
        assert(suf.drop_first() =~= jview_items(a@, 0).skip(i as int + 1));
    }
    match &a[i] {
        Json::Obj(o) => match crate::codec::instance_of(o) {
            Option::Some(f) => match instances_of(a, i + 1) {
                Option::Some(t) => {
                    let ghost t0 = t@;
                    let mut out = t;
                    out.insert(0, f);
                    proof {
                        assert(out@.drop_first() =~= t0);
                        assert(instances_view(out@) =~= seq![out@[0]@] + instances_view(t0));
                    }
                    Option::Some(out)
                },
                Option::None => Option::None,
            },
            Option::None => Option::None,
        },
        _ => Option::None,
    }
}

/// The certificates of a wire array, as [`certs_of_items`] reads them.
fn certs_of(a: &Vec<Json>, i: usize) -> (r: Option<Vec<String>>)
    requires
        i <= a@.len(),
    ensures
        match certs_of_items(jview_items(a@, 0).skip(i as int)) {
            Option::None => r is None,
            Option::Some(fs) => r matches Option::Some(v) && certs_view(v@) == fs,
        },
    decreases a@.len() - i,
{
    proof {
        lemma_jview_items_index(a@, 0);
        assert(jview_items(a@, 0).skip(i as int).len() == a@.len() - i);
    }
    if i == a.len() {
        let out: Vec<String> = Vec::new();
        proof {
            assert(jview_items(a@, 0).skip(i as int) =~= Seq::<JsonV>::empty());
            assert(certs_view(out@) =~= Seq::<Seq<char>>::empty());
        }
        return Option::Some(out);
    }
    let ghost suf = jview_items(a@, 0).skip(i as int);
    proof {
        assert(suf[0] == jview(a@[i as int]));
        assert(suf.drop_first() =~= jview_items(a@, 0).skip(i as int + 1));
    }
    match &a[i] {
        Json::Text(c) => match certs_of(a, i + 1) {
            Option::Some(t) => {
                let ghost t0 = t@;
                let mut out = t;
                out.insert(0, c.clone());
                proof {
                    assert(out@.drop_first() =~= t0);
                    assert(certs_view(out@) =~= seq![out@[0]@] + certs_view(t0));
                }
                Option::Some(out)
            },
            Option::None => Option::None,
        },
        _ => Option::None,
    }
}

/// A listener state read from its JSON value, as [`state_of_json`] reads
/// it.
pub fn state_of(j: &Json) -> (r: Option<ProxyState>)
    ensures
        match state_of_json(jview(*j)) {
            Option::None => r is None,
            Option::Some(sv) => r matches Option::Some(s) && s@ == sv,
        },
{
    let o = match j {
        Json::Obj(o) => o,
        _ => {
            return Option::None;
        },
    };
    let fr: Option<Vec<HttpFront>> = match crate::codec::obj_value(o, "fronts") {
        Option::None => {
            let v: Vec<HttpFront> = Vec::new();
            proof {
                assert(fronts_view(v@) =~= Seq::<HttpFrontV>::empty());
            }
            Option::Some(v)
        },
        Option::Some(Json::Arr(a)) => {
            proof {
                assert(jview_items(a@, 0).skip(0) =~= jview_items(a@, 0));
            }
            fronts_of(a, 0)
        },
        Option::Some(_) => Option::None,
    };
    let ins: Option<Vec<Instance>> = match crate::codec::obj_value(o, "instances") {
        Option::None => {
            let v: Vec<Instance> = Vec::new();
            proof {
                assert(instances_view(v@) =~= Seq::<InstanceV>::empty());
            }
            Option::Some(v)
        },
        Option::Some(Json::Arr(a)) => {
            proof {
                assert(jview_items(a@, 0).skip(0) =~= jview_items(a@, 0));
            }
            instances_of(a, 0)
        },
        Option::Some(_) => Option::None,
    };
    let cs: Option<Vec<String>> = match crate::codec::obj_value(o, "certificates") {
        Option::None => {
            let v: Vec<String> = Vec::new();
            proof {
                assert(certs_view(v@) =~= Seq::<Seq<char>>::empty());
            }
            Option::Some(v)
        },
        Option::Some(Json::Arr(a)) => {
            proof {
                assert(jview_items(a@, 0).skip(0) =~= jview_items(a@, 0));
            }
            certs_of(a, 0)
        },
        Option::Some(_) => Option::None,
    };
    match (fr, ins, cs) {
        (Option::Some(f), Option::Some(i), Option::Some(c)) => Option::Some(
            ProxyState { fronts: f, instances: i, certificates: c },
        ),
        _ => Option::None,
    }
}

/// Whether `k` is a persisted-entry member name; see [`entry_key_ok`].
fn entry_key_check(k: &str) -> (r: bool)
    ensures
        r == entry_key_ok(k@),
{
    str_eq(k, "tag") || str_eq(k, "proxy_type") || str_eq(k, "state")
}

/// Whether every member of `o` carries a persisted-entry member name.
#[verifier::loop_isolation(false)]
fn entry_keys_within(o: &Vec<(String, Json)>) -> (r: bool)
    ensures
        r == entry_keys_ok(jview_members(o@, 0)),
{
    let ghost mv = jview_members(o@, 0);
    proof {
        lemma_jview_members_index(o@, 0);
    }
    let mut i: usize = 0;
    while i < o.len()
        invariant
            0 <= i <= o@.len(),
            forall|k: int| 0 <= k < i ==> entry_key_ok((#[trigger] mv[k]).0),
        decreases o@.len() - i,
    {
        if !entry_key_check(o[i].0.as_str()) {
            proof {
                assert(mv[i as int].0 == o@[i as int].0@);
                assert(!entry_key_ok(mv[i as int].0));
            }
            return false;
        }
        proof {
            assert(mv[i as int].0 == o@[i as int].0@);
        }
        i = i + 1;
    }
    true
}

/// One persisted entry read from its wire text, as [`entry_of_json`]
/// reads it after [`pjson`].
pub fn parse_state_entry(s: &str) -> (r: Result<ProxyDeserializer, ProtocolError>)
    ensures
        match pjson(s@) {
            Option::None => r matches Result::Err(e) && e@ == ProtocolErrorV::Decode,
            Option::Some(jv) => match entry_of_json(jv) {
                Result::Ok(ev) => r matches Result::Ok(en) && en@ == ev,
                Result::Err(ev) => r matches Result::Err(e) && e@ == ev,
            },
        },
{
    let j = match json_parse(s) {
        Option::None => {
            return Result::Err(ProtocolError::Decode);
        },
        Option::Some(j) => j,
    };
    entry_of_value(&j)
}

/// One persisted entry read from a JSON value, as [`entry_of_json`]
/// reads it.
pub fn entry_of_value(j: &Json) -> (r: Result<ProxyDeserializer, ProtocolError>)
    ensures
        match entry_of_json(jview(*j)) {
            Result::Ok(ev) => r matches Result::Ok(en) && en@ == ev,
            Result::Err(ev) => r matches Result::Err(e) && e@ == ev,
        },
{
    let o = match j {
        Json::Obj(o) => o,
        _ => {
            return Result::Err(ProtocolError::Decode);
        },
    };
    if !entry_keys_within(o) {
        return Result::Err(ProtocolError::Decode);
    }
    let pt = match crate::codec::get_str_field(o, "proxy_type") {
        Option::Some(t) => t,
        Option::None => {
            return Result::Err(ProtocolError::MissingField(String::from_str("proxy_type")));
        },
    };
    let tag = match crate::codec::get_str_field(o, "tag") {
        Option::Some(t) => t,
        Option::None => {
            return Result::Err(ProtocolError::MissingField(String::from_str("tag")));
        },
    };
    let st = match crate::codec::obj_value(o, "state") {
        Option::Some(st) => st,
        Option::None => {
            return Result::Err(ProtocolError::MissingField(String::from_str("state")));
        },
    };
    if str_eq(pt.as_str(), "HTTP") {
        match state_of(st) {
            Option::Some(s) => Result::Ok(
                ProxyDeserializer { tag, state: ConfigState::Http(s) },
            ),
            Option::None => Result::Err(ProtocolError::Decode),
        }
    } else if str_eq(pt.as_str(), "HTTPS") {
        match state_of(st) {
            Option::Some(s) => Result::Ok(ProxyDeserializer { tag, state: ConfigState::Tls(s) }),
            Option::None => Result::Err(ProtocolError::Decode),
        }
    } else if str_eq(pt.as_str(), "TCP") {
        Result::Ok(ProxyDeserializer { tag, state: ConfigState::Tcp })
    } else {
        Result::Err(ProtocolError::BadProxyKind)
    }
}

impl ConfigState {
    /// One order applied to this listener's state; certificates act only
    /// on an HTTPS listener, and a TCP listener ignores every order.
    pub fn apply(&mut self, o: &Order)
        ensures
            final(self)@ == cfg_spec_apply(old(self)@, o@),
    {
        match self {
            ConfigState::Http(s) => {
                s.apply(o, false);
            },
            ConfigState::Tls(s) => {
                s.apply(o, true);
            },
            ConfigState::Tcp => {},
        }
    }

    /// The replay sequence of this listener's state; empty for TCP.
    pub fn orders(&self) -> (r: Vec<Order>)
        ensures
            orders_view(r@) == cfg_orders_of(self@),
    {
        match self {
            ConfigState::Http(s) => s.orders(),
            ConfigState::Tls(s) => s.orders(),
            ConfigState::Tcp => {
                let r: Vec<Order> = Vec::new();
                proof {
                    assert(orders_view(r@) =~= Seq::<crate::data::OrderV>::empty());
                }
                r
            },
        }
    }
}

/// What one order does to a listener's state: certificates act only on an
/// HTTPS listener, and a TCP listener ignores every order.
pub open spec fn cfg_spec_apply(s: ConfigStateV, o: crate::data::OrderV) -> ConfigStateV {
    match s {
        ConfigStateV::Http(p) => ConfigStateV::Http(crate::state::spec_apply(p, o, false)),
        ConfigStateV::Tls(p) => ConfigStateV::Tls(crate::state::spec_apply(p, o, true)),
        ConfigStateV::Tcp => ConfigStateV::Tcp,
    }
}

/// The replay sequence of a listener's state; empty for TCP.
pub open spec fn cfg_orders_of(s: ConfigStateV) -> Seq<crate::data::OrderV> {
    match s {
        ConfigStateV::Http(p) => crate::state::orders_of(p),
        ConfigStateV::Tls(p) => crate::state::orders_of(p),
        ConfigStateV::Tcp => Seq::empty(),
    }
}

/// The position of the first entry under `tag`, or -1 when none is.
pub open spec fn tag_idx(es: Seq<ProxyDeserializerV>, tag: Seq<char>) -> int
    decreases es.len(),
{
    if es.len() == 0 {
        -1
    } else if es[0].tag == tag {
        0
    } else {
        let r = tag_idx(es.drop_first(), tag);
        if r < 0 {
            -1
        } else {
            r + 1
        }
    }
}

/// The first position is in range, carries the tag, and is the earliest.
proof fn lemma_tag_idx(es: Seq<ProxyDeserializerV>, tag: Seq<char>)
    ensures
        tag_idx(es, tag) >= 0 ==> tag_idx(es, tag) < es.len() && es[tag_idx(es, tag)].tag == tag
            && forall|k: int| 0 <= k < tag_idx(es, tag) ==> es[k].tag != tag,
        tag_idx(es, tag) < 0 ==> forall|k: int| 0 <= k < es.len() ==> es[k].tag != tag,
    decreases es.len(),
{
    if es.len() > 0 && es[0].tag != tag {
        let t = es.drop_first();
        lemma_tag_idx(t, tag);
        assert(forall|k: int| 0 <= k < t.len() ==> #[trigger] t[k] == es[k + 1]);
        if tag_idx(t, tag) >= 0 {
            assert(es[tag_idx(es, tag)] == t[tag_idx(t, tag)]);
            assert forall|k: int| 0 <= k < tag_idx(es, tag) implies es[k].tag != tag by {
                if k > 0 {
                    assert(es[k] == t[k - 1]);
                }
            }
        } else {
            assert forall|k: int| 0 <= k < es.len() implies es[k].tag != tag by {
                if k > 0 {
                    assert(es[k] == t[k - 1]);
                }
            }
        }
    }
}

/// The models of a list of entries.
pub open spec fn entries_view(es: Seq<ProxyDeserializer>) -> Seq<ProxyDeserializerV> {
    Seq::new(es.len(), |i: int| es[i]@)
}

/// The whole persisted document: one entry's text per line, each line
/// terminated by a newline.
pub open spec fn dump_of(es: Seq<ProxyDeserializerV>) -> Seq<char>
    decreases es.len(),
{
    if es.len() == 0 {
        Seq::empty()
    } else {
        dump_of(es.drop_last()) + penc(entry_json(es.last())) + seq!['\n']
    }
}

/// The master's store: every listener's persisted entry, in declaration
/// order, one per tag.
pub struct StateStore {
    pub entries: Vec<ProxyDeserializer>,
}

impl StateStore {
    /// An empty store.
    pub fn new() -> (r: StateStore)
        ensures
            r.entries@.len() == 0,
    {
        StateStore { entries: Vec::new() }
    }

    /// The position of the first entry under `tag`, where one exists.
    #[verifier::loop_isolation(false)]
    pub fn find(&self, tag: &str) -> (r: Option<usize>)
        ensures
            match r {
                Option::Some(i) => i as int == tag_idx(entries_view(self.entries@), tag@),
                Option::None => tag_idx(entries_view(self.entries@), tag@) < 0,
            },
    {
        let ghost ev = entries_view(self.entries@);
        proof {
            lemma_tag_idx(ev, tag@);
        }
        let mut i: usize = 0;
        while i < self.entries.len()
            invariant
                0 <= i <= self.entries@.len(),
                ev == entries_view(self.entries@),
                forall|k: int| 0 <= k < i ==> (#[trigger] ev[k]).tag != tag@,
            decreases self.entries@.len() - i,
        {
            if str_eq(self.entries[i].tag.as_str(), tag) {
                proof {
                    assert(ev[i as int].tag == tag@);
                    assert(tag_idx(ev, tag@) == i) by {
                        if tag_idx(ev, tag@) < 0 {
                            assert(ev[i as int].tag != tag@);
                        } else if tag_idx(ev, tag@) < i {
                            assert(ev[tag_idx(ev, tag@)].tag != tag@);
                        } else if tag_idx(ev, tag@) > i {
                            assert(ev[i as int].tag != tag@);
                        }
                    }
                }
                return Option::Some(i);
            }
            i = i + 1;
        }
        proof {
            if tag_idx(ev, tag@) >= 0 {
                assert(ev[tag_idx(ev, tag@)].tag != tag@);
            }
        }
        Option::None
    }

    /// One order applied to the first entry under `tag`; other entries
    /// are untouched, and an unknown tag changes nothing.
    pub fn apply(&mut self, tag: &str, o: &Order) -> (r: bool)
        ensures
            ({
                let ev = entries_view(old(self).entries@);
                let i = tag_idx(ev, tag@);
                if i < 0 {
                    r == false && *final(self) == *old(self)
                } else {
                    r == true && entries_view(final(self).entries@) == ev.update(
                        i,
                        ProxyDeserializerV {
                            tag: ev[i].tag,
                            state: cfg_spec_apply(ev[i].state, o@),
                        },
                    )
                }
            }),
    {
        let ghost ev = entries_view(self.entries@);
        proof {
            lemma_tag_idx(ev, tag@);
        }
        let i = match self.find(tag) {
            Option::Some(i) => i,
            Option::None => {
                return false;
            },
        };
        self.entries[i].state.apply(o);
        proof {
            assert(entries_view(self.entries@) =~= ev.update(
                i as int,
                ProxyDeserializerV {
                    tag: ev[i as int].tag,
                    state: cfg_spec_apply(ev[i as int].state, o@),
                },
            ));
        }
        true
    }

    /// The replay sequence for the first entry under `tag`, or `None` for
    /// an unknown tag.
    pub fn orders(&self, tag: &str) -> (r: Option<Vec<Order>>)
        ensures
            ({
                let ev = entries_view(self.entries@);
                let i = tag_idx(ev, tag@);
                if i < 0 {
                    r is None
                } else {
                    r matches Option::Some(v) && orders_view(v@) == cfg_orders_of(ev[i].state)
                }
            }),
    {
        proof {
            lemma_tag_idx(entries_view(self.entries@), tag@);
        }
        let i = match self.find(tag) {
            Option::Some(i) => i,
            Option::None => {
                return Option::None;
            },
        };
        Option::Some(self.entries[i].state.orders())
    }

    /// The whole persisted document, as `save` writes it.
    pub fn dump_string(&self) -> (r: String)
        ensures
            r@ == dump_of(entries_view(self.entries@)),
    {
        let ghost ev = entries_view(self.entries@);
        let mut out = String::new();
        let mut i: usize = 0;
        while i < self.entries.len()
            invariant
                0 <= i <= self.entries@.len(),
                ev == entries_view(self.entries@),
                out@ == dump_of(ev.take(i as int)),
            decreases self.entries@.len() - i,
        {
            let line = encode_state_entry(&self.entries[i]);
            out.append(line.as_str());
            crate::json::push_char(&mut out, '\n');
            proof {
                assert(ev.take(i as int + 1).drop_last() =~= ev.take(i as int));
                assert(ev.take(i as int + 1).last() == ev[i as int]);
            }
            i = i + 1;
        }
        proof {
            assert(ev.take(ev.len() as int) =~= ev);
        }
        out
    }

}

/// Index of the first newline in `s`, or -1 when none remains.
pub open spec fn first_nl(s: Seq<char>) -> int
    decreases s.len(),
{
    if s.len() == 0 {
        -1
    } else if s[0] == '\n' {
        0
    } else {
        let r = first_nl(s.drop_first());
        if r < 0 {
            -1
        } else {
            r + 1
        }
    }
}

/// The first newline lies inside the text and is the earliest one.
proof fn lemma_first_nl(s: Seq<char>)
    ensures
        first_nl(s) >= 0 ==> first_nl(s) < s.len() && s[first_nl(s)] == '\n' && forall|k: int|
            0 <= k < first_nl(s) ==> s[k] != '\n',
        first_nl(s) < 0 ==> forall|k: int| 0 <= k < s.len() ==> s[k] != '\n',
    decreases s.len(),
{
    if s.len() > 0 && s[0] != '\n' {
        let t = s.drop_first();
        lemma_first_nl(t);
        assert(forall|i: int| 0 <= i < t.len() ==> #[trigger] t[i] == s[i + 1]);
        let r = first_nl(t);
        if r >= 0 {
            assert(s[first_nl(s)] == t[r]);
            assert forall|k: int| 0 <= k < first_nl(s) implies s[k] != '\n' by {
                if k > 0 {
                    assert(s[k] == t[k - 1]);
                }
            }
        } else {
            assert forall|k: int| 0 <= k < s.len() implies s[k] != '\n' by {
                if k > 0 {
                    assert(s[k] == t[k - 1]);
                }
            }
        }
    }
}

/// The text cut at each newline; the final piece may lack one.
pub open spec fn split_lines(s: Seq<char>) -> Seq<Seq<char>>
    decreases s.len(),
{
    if s.len() == 0 {
        Seq::empty()
    } else {
        let k = first_nl(s);
        if k < 0 || k >= s.len() {
            seq![s]
        } else {
            seq![s.take(k)] + split_lines(s.skip(k + 1))
        }
    }
}

/// One line of the document as an entry.
pub open spec fn parse_line(l: Seq<char>) -> Result<ProxyDeserializerV, ProtocolErrorV> {
    match pjson(l) {
        Option::None => Result::Err(ProtocolErrorV::Decode),
        Option::Some(j) => entry_of_json(j),
    }
}

/// The document's lines as entries, empty lines skipped; the first
/// offending line's error wins.
pub open spec fn parse_lines(ls: Seq<Seq<char>>) -> Result<
    Seq<ProxyDeserializerV>,
    ProtocolErrorV,
>
    decreases ls.len(),
{
    if ls.len() == 0 {
        Result::Ok(Seq::empty())
    } else if ls[0].len() == 0 {
        parse_lines(ls.drop_first())
    } else {
        match parse_line(ls[0]) {
            Result::Err(e) => Result::Err(e),
            Result::Ok(e) => match parse_lines(ls.drop_first()) {
                Result::Ok(t) => Result::Ok(seq![e] + t),
                Result::Err(x) => Result::Err(x),
            },
        }
    }
}

/// Cutting the document at a scanned newline: the piece between `start`
/// and `i` is the next line.
proof fn lemma_line_step(s: Seq<char>, start: int, i: int)
    requires
        0 <= start <= i <= s.len(),
        forall|k: int| start <= k < i ==> s[k] != '\n',
        i < s.len() ==> s[i] == '\n',
    ensures
        i < s.len() ==> split_lines(s.skip(start)) == seq![s.subrange(start, i)] + split_lines(
            s.skip(i + 1),
        ),
        i == s.len() && start < i ==> split_lines(s.skip(start)) == seq![s.subrange(start, i)],
        i == s.len() && start == i ==> split_lines(s.skip(start)) == Seq::<Seq<char>>::empty(),
{
    let rest = s.skip(start);
    lemma_first_nl(rest);
    assert(forall|k: int| 0 <= k < rest.len() ==> #[trigger] rest[k] == s[start + k]);
    if i < s.len() {
        assert(rest[i - start] == '\n');
        if first_nl(rest) < 0 {
            assert(rest[i - start] != '\n');
        }
        if 0 <= first_nl(rest) < i - start {
            assert(s[start + first_nl(rest)] == '\n');
        }
        if first_nl(rest) > i - start {
            assert(rest[i - start] != '\n');
        }
        assert(first_nl(rest) == i - start);
        assert(rest.take(i - start) =~= s.subrange(start, i));
        assert(rest.skip(i - start + 1) =~= s.skip(i + 1));
        assert(rest.len() > 0);
    } else {
        if first_nl(rest) >= 0 {
            assert(s[start + first_nl(rest)] == '\n');
        }
        assert(first_nl(rest) < 0);
        if start < i {
            assert(rest.len() > 0);
            assert(rest =~= s.subrange(start, i));
        } else {
            assert(rest.len() == 0);
        }
    }
}

/// Consuming one parsed entry moves `parse_lines` along by one line.
proof fn lemma_parse_cons(
    lv: Seq<char>,
    rest_lines: Seq<Seq<char>>,
    e: ProxyDeserializerV,
)
    requires
        lv.len() > 0,
        parse_line(lv) == Result::<ProxyDeserializerV, ProtocolErrorV>::Ok(e),
    ensures
        parse_lines(seq![lv] + rest_lines) == (match parse_lines(rest_lines) {
            Result::Ok(t) => Result::<Seq<ProxyDeserializerV>, ProtocolErrorV>::Ok(seq![e] + t),
            Result::Err(x) => Result::<Seq<ProxyDeserializerV>, ProtocolErrorV>::Err(x),
        }),
{
    let ls = seq![lv] + rest_lines;
    assert(ls[0] == lv);
    assert(ls.drop_first() =~= rest_lines);
}

/// A failing line fails the whole document.
proof fn lemma_parse_cons_err(lv: Seq<char>, rest_lines: Seq<Seq<char>>, x: ProtocolErrorV)
    requires
        lv.len() > 0,
        parse_line(lv) == Result::<ProxyDeserializerV, ProtocolErrorV>::Err(x),
    ensures
        parse_lines(seq![lv] + rest_lines) == Result::<
            Seq<ProxyDeserializerV>,
            ProtocolErrorV,
        >::Err(x),
{
    let ls = seq![lv] + rest_lines;
    assert(ls[0] == lv);
    assert(ls.drop_first() =~= rest_lines);
}

/// An empty line is skipped.
proof fn lemma_parse_cons_empty(rest_lines: Seq<Seq<char>>)
    ensures
        parse_lines(seq![Seq::<char>::empty()] + rest_lines) == parse_lines(rest_lines),
{
    let ls = seq![Seq::<char>::empty()] + rest_lines;
    assert(ls[0] == Seq::<char>::empty());
    assert(ls.drop_first() =~= rest_lines);
}

impl StateStore {
    /// A store read back from a persisted document, as `load` replaces
    /// the in-memory map: every nonempty line one entry, in order, and
    /// the first offending line's error otherwise. Reading tolerates
    /// empty lines and a missing final newline.
    #[verifier::loop_isolation(false)]
    #[verifier::rlimit(100)]
    #[verifier::spinoff_prover]
    pub fn load_string(text: &str) -> (r: Result<StateStore, ProtocolError>)
        ensures
            match parse_lines(split_lines(text@)) {
                Result::Ok(es) => r matches Result::Ok(st) && entries_view(st.entries@) == es,
                Result::Err(e) => r matches Result::Err(x) && x@ == e,
            },
    {
        let full = crate::json::chars_of(text);
        let n = full.len();
        let mut entries: Vec<ProxyDeserializer> = Vec::new();
        let mut start: usize = 0;
        let mut i: usize = 0;
        proof {
            assert(text@.skip(0) =~= text@);
            assert(entries_view(entries@) =~= Seq::<ProxyDeserializerV>::empty());
            assert(Seq::<ProxyDeserializerV>::empty() + Seq::<ProxyDeserializerV>::empty()
                =~= Seq::<ProxyDeserializerV>::empty());
        }
        while i < n
            invariant
                0 <= start <= i <= n,
                n == text@.len(),
                full@ == text@,
                forall|k: int| start <= k < i ==> text@[k] != '\n',
                match parse_lines(split_lines(text@.skip(start as int))) {
                    Result::Ok(es2) => parse_lines(split_lines(text@)) == Result::<
                        Seq<ProxyDeserializerV>,
                        ProtocolErrorV,
                    >::Ok(entries_view(entries@) + es2),
                    Result::Err(e) => parse_lines(split_lines(text@)) == Result::<
                        Seq<ProxyDeserializerV>,
                        ProtocolErrorV,
                    >::Err(e),
                },
            decreases n - i,
        {
            if full[i] == '\n' {
                proof {
                    lemma_line_step(text@, start as int, i as int);
                }
                if i > start {
                    let line = text.substring_char(start, i);
                    let ghost lv = text@.subrange(start as int, i as int);
                    match parse_state_entry(line) {
                        Result::Ok(e) => {
                            let ghost e0 = entries_view(entries@);
                            entries.push(e);
                            proof {
                                lemma_parse_cons(lv, split_lines(text@.skip(i as int + 1)), e@);
                                assert(entries_view(entries@) =~= e0.push(e@));
                                match parse_lines(split_lines(text@.skip(i as int + 1))) {
                                    Result::Ok(t) => {
                                        assert(e0 + (seq![e@] + t) =~= entries_view(entries@)
                                            + t);
                                    },
                                    Result::Err(_) => {},
                                }
                            }
                        },
                        Result::Err(e) => {
                            proof {
                                lemma_parse_cons_err(
                                    lv,
                                    split_lines(text@.skip(i as int + 1)),
                                    e@,
                                );
                            }
                            return Result::Err(e);
                        },
                    }
                } else {
                    proof {
                        assert(text@.subrange(start as int, i as int) =~= Seq::<char>::empty());
                        lemma_parse_cons_empty(split_lines(text@.skip(i as int + 1)));
                    }
                }
                start = i + 1;
            }
            i = i + 1;
        }
        proof {
            lemma_line_step(text@, start as int, n as int);
        }
        if start < n {
            let line = text.substring_char(start, n);
            let ghost lv = text@.subrange(start as int, n as int);
            match parse_state_entry(line) {
                Result::Ok(e) => {
                    let ghost e0 = entries_view(entries@);
                    entries.push(e);
                    proof {
                        lemma_parse_cons(lv, Seq::<Seq<char>>::empty(), e@);
                        assert(seq![lv] + Seq::<Seq<char>>::empty() =~= seq![lv]);
                        assert(entries_view(entries@) =~= e0.push(e@));
                        assert(e0 + (seq![e@] + Seq::<ProxyDeserializerV>::empty())
                            =~= entries_view(entries@));
                    }
                    Result::Ok(StateStore { entries })
                },
                Result::Err(e) => {
                    proof {
                        lemma_parse_cons_err(lv, Seq::<Seq<char>>::empty(), e@);
                        assert(seq![lv] + Seq::<Seq<char>>::empty() =~= seq![lv]);
                    }
                    Result::Err(e)
                },
            }
        } else {
            proof {
                assert(entries_view(entries@) + Seq::<ProxyDeserializerV>::empty()
                    =~= entries_view(entries@));
            }
            Result::Ok(StateStore { entries })
        }
    }
}

} // verus!} // verus!} // verus!

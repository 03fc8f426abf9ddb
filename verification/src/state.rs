//! The master's configuration state: per-listener sets of fronts, backend
//! instances and certificates, mutated by orders with set semantics and
//! replayable as a deterministic sequence of `Add` orders.

use vstd::prelude::*;

use crate::codec::str_eq;
use crate::data::{HttpFront, HttpFrontV, Instance, InstanceV, Order, OrderV};

verus! {

broadcast use vstd::seq_lib::group_seq_lib_default;

/// The models of a list of fronts.
pub open spec fn fronts_view(v: Seq<HttpFront>) -> Seq<HttpFrontV> {
    Seq::new(v.len(), |i: int| v[i]@)
}

/// The models of a list of backend instances.
pub open spec fn instances_view(v: Seq<Instance>) -> Seq<InstanceV> {
    Seq::new(v.len(), |i: int| v[i]@)
}

/// The models of a list of certificates.
pub open spec fn certs_view(v: Seq<String>) -> Seq<Seq<char>> {
    Seq::new(v.len(), |i: int| v[i]@)
}

/// One listener's routing state: what its workers are told to serve.
#[derive(Debug, Clone, PartialEq, Eq)]
pub struct ProxyState {
    pub fronts: Vec<HttpFront>,
    pub instances: Vec<Instance>,
    pub certificates: Vec<String>,
}

/// Model of a [`ProxyState`].
pub struct ProxyStateV {
    pub fronts: Seq<HttpFrontV>,
    pub instances: Seq<InstanceV>,
    pub certificates: Seq<Seq<char>>,
}

impl View for ProxyState {
    type V = ProxyStateV;

    open spec fn view(&self) -> ProxyStateV {
        ProxyStateV {
            fronts: fronts_view(self.fronts@),
            instances: instances_view(self.instances@),
            certificates: certs_view(self.certificates@),
        }
    }
}

/// No element occurs twice.
pub open spec fn distinct<A>(s: Seq<A>) -> bool {
    forall|i: int, j: int| 0 <= i < j < s.len() ==> s[i] != s[j]
}

/// A well-formed state holds each front, instance and certificate once.
pub open spec fn state_wf(s: ProxyStateV) -> bool {
    distinct(s.fronts) && distinct(s.instances) && distinct(s.certificates)
}

/// Keeping everything but the front `f`.
pub open spec fn not_front(f: HttpFrontV) -> spec_fn(HttpFrontV) -> bool {
    |y: HttpFrontV| y != f
}

/// Keeping everything but the backend instance `x`.
pub open spec fn not_instance(x: InstanceV) -> spec_fn(InstanceV) -> bool {
    |y: InstanceV| y != x
}

/// Keeping everything but the certificate `c`.
pub open spec fn not_cert(c: Seq<char>) -> spec_fn(Seq<char>) -> bool {
    |y: Seq<char>| y != c
}

/// What one order does to a listener's state: `Add` is a no-op on a present
/// item, `Remove` on an absent one; stops and status pings change nothing.
/// Certificate orders act only where `with_certs` holds (an HTTPS listener).
pub open spec fn spec_apply(s: ProxyStateV, o: OrderV, with_certs: bool) -> ProxyStateV {
    match o {
        OrderV::AddHttpFront(f) => {
            if s.fronts.contains(f) {
                s
            } else {
                ProxyStateV { fronts: s.fronts.push(f), ..s }
            }
        },
        OrderV::RemoveHttpFront(f) => ProxyStateV {
            fronts: s.fronts.filter(not_front(f)),
            ..s
        },
        OrderV::AddInstance(i) => {
            if s.instances.contains(i) {
                s
            } else {
                ProxyStateV { instances: s.instances.push(i), ..s }
            }
        },
        OrderV::RemoveInstance(i) => ProxyStateV {
            instances: s.instances.filter(not_instance(i)),
            ..s
        },
        OrderV::AddCertificate(c) => {
            if !with_certs || s.certificates.contains(c) {
                s
            } else {
                ProxyStateV { certificates: s.certificates.push(c), ..s }
            }
        },
        OrderV::RemoveCertificate(c) => {
            if with_certs {
                ProxyStateV { certificates: s.certificates.filter(not_cert(c)), ..s }
            } else {
                s
            }
        },
        OrderV::SoftStop => s,
        OrderV::HardStop => s,
        OrderV::Status => s,
    }
}

/// Equality of two fronts, field for field.
pub fn front_eq(a: &HttpFront, b: &HttpFront) -> (r: bool)
    ensures
        r == (a@ == b@),
{
    let r = str_eq(a.app_id.as_str(), b.app_id.as_str()) && str_eq(
        a.hostname.as_str(),
        b.hostname.as_str(),
    ) && str_eq(a.path_begin.as_str(), b.path_begin.as_str());
    proof {
        if a@.app_id == b@.app_id && a@.hostname == b@.hostname && a@.path_begin == b@.path_begin {
            assert(a@ == b@);
        }
    }
    r
}

/// Equality of two backend instances, field for field.
pub fn instance_eq(a: &Instance, b: &Instance) -> (r: bool)
    ensures
        r == (a@ == b@),
{
    let r = str_eq(a.app_id.as_str(), b.app_id.as_str()) && str_eq(
        a.ip_address.as_str(),
        b.ip_address.as_str(),
    ) && a.port == b.port;
    proof {
        if a@.app_id == b@.app_id && a@.ip_address == b@.ip_address && a@.port == b@.port {
            assert(a@ == b@);
        }
    }
    r
}

/// A copy of a front that keeps its fields.
pub fn clone_front(f: &HttpFront) -> (r: HttpFront)
    ensures
        r@ == f@,
{
    HttpFront {
        app_id: f.app_id.clone(),
        hostname: f.hostname.clone(),
        path_begin: f.path_begin.clone(),
    }
}

/// A copy of a backend instance that keeps its fields.
pub fn clone_instance(x: &Instance) -> (r: Instance)
    ensures
        r@ == x@,
{
    Instance { app_id: x.app_id.clone(), ip_address: x.ip_address.clone(), port: x.port }
}

impl ProxyState {
    /// The empty state: nothing routed yet.
    pub fn empty() -> (r: ProxyState)
        ensures
            r@.fronts.len() == 0,
            r@.instances.len() == 0,
            r@.certificates.len() == 0,
            state_wf(r@),
    {
        let r = ProxyState { fronts: Vec::new(), instances: Vec::new(), certificates: Vec::new() };
        proof {
            assert(fronts_view(r.fronts@) =~= Seq::<HttpFrontV>::empty());
            assert(instances_view(r.instances@) =~= Seq::<InstanceV>::empty());
            assert(certs_view(r.certificates@) =~= Seq::<Seq<char>>::empty());
        }
        r
    }

    fn contains_front(&self, f: &HttpFront) -> (r: bool)
        ensures
            r == self@.fronts.contains(f@),
    {
        let mut i: usize = 0;
        while i < self.fronts.len()
            invariant
                0 <= i <= self.fronts@.len(),
                forall|k: int| 0 <= k < i ==> fronts_view(self.fronts@)[k] != f@,
            decreases self.fronts@.len() - i,
        {
            if front_eq(&self.fronts[i], f) {
                proof {
                    assert(fronts_view(self.fronts@)[i as int] == f@);
                }
                return true;
            }
            i = i + 1;
        }
        proof {
            if self@.fronts.contains(f@) {
                let k = choose|k: int| 0 <= k < self@.fronts.len() && self@.fronts[k] == f@;
                assert(fronts_view(self.fronts@)[k] == f@);
            }
        }
        false
    }

    fn contains_instance(&self, x: &Instance) -> (r: bool)
        ensures
            r == self@.instances.contains(x@),
    {
        let mut i: usize = 0;
        while i < self.instances.len()
            invariant
                0 <= i <= self.instances@.len(),
                forall|k: int| 0 <= k < i ==> instances_view(self.instances@)[k] != x@,
            decreases self.instances@.len() - i,
        {
            if instance_eq(&self.instances[i], x) {
                proof {
                    assert(instances_view(self.instances@)[i as int] == x@);
                }
                return true;
            }
            i = i + 1;
        }
        proof {
            if self@.instances.contains(x@) {
                let k = choose|k: int|
                    0 <= k < self@.instances.len() && self@.instances[k] == x@;
                assert(instances_view(self.instances@)[k] == x@);
            }
        }
        false
    }

    fn contains_cert(&self, c: &str) -> (r: bool)
        ensures
            r == self@.certificates.contains(c@),
    {
        let mut i: usize = 0;
        while i < self.certificates.len()
            invariant
                0 <= i <= self.certificates@.len(),
                forall|k: int| 0 <= k < i ==> certs_view(self.certificates@)[k] != c@,
            decreases self.certificates@.len() - i,
        {
            if str_eq(self.certificates[i].as_str(), c) {
                proof {
                    assert(certs_view(self.certificates@)[i as int] == c@);
                }
                return true;
            }
            i = i + 1;
        }
        proof {
            if self@.certificates.contains(c@) {
                let k = choose|k: int|
                    0 <= k < self@.certificates.len() && self@.certificates[k] == c@;
                assert(certs_view(self.certificates@)[k] == c@);
            }
        }
        false
    }

    /// Adds a front unless present.
    fn add_front(&mut self, f: &HttpFront)
        ensures
            final(self)@ == spec_apply(old(self)@, OrderV::AddHttpFront(f@), true),
    {
        if !self.contains_front(f) {
            self.fronts.push(clone_front(f));
            proof {
                assert(fronts_view(self.fronts@) =~= fronts_view(old(self).fronts@).push(f@));
            }
        }
    }

    /// Removes a front if present.
    fn remove_front(&mut self, f: &HttpFront)
        ensures
            final(self)@ == spec_apply(old(self)@, OrderV::RemoveHttpFront(f@), true),
    {
        let mut out: Vec<HttpFront> = Vec::new();
        let mut i: usize = 0;
        while i < self.fronts.len()
            invariant
                0 <= i <= self.fronts@.len(),
                self == old(self),
                fronts_view(out@) =~= fronts_view(self.fronts@).take(i as int).filter(
                    not_front(f@),
                ),
            decreases self.fronts@.len() - i,
        {
            let ghost pre = fronts_view(self.fronts@).take(i as int);
            let ghost post = fronts_view(self.fronts@).take(i as int + 1);
            proof {
                reveal(Seq::filter);
                assert(post.drop_last() =~= pre);
                assert(post.last() == fronts_view(self.fronts@)[i as int]);
            }
            if !front_eq(&self.fronts[i], f) {
                let ghost out0 = out@;
                let c = clone_front(&self.fronts[i]);
                out.push(c);
                proof {
                    assert(fronts_view(out@) =~= fronts_view(out0).push(
                        self.fronts@[i as int]@,
                    ));
                }
            }
            i = i + 1;
        }
        proof {
            assert(fronts_view(self.fronts@).take(self.fronts@.len() as int) =~= fronts_view(
                self.fronts@,
            ));
        }
        self.fronts = out;
    }

    /// Adds a backend instance unless present.
    fn add_instance(&mut self, x: &Instance)
        ensures
            final(self)@ == spec_apply(old(self)@, OrderV::AddInstance(x@), true),
    {
        if !self.contains_instance(x) {
            self.instances.push(clone_instance(x));
            proof {
                assert(instances_view(self.instances@) =~= instances_view(
                    old(self).instances@,
                ).push(x@));
            }
        }
    }

    /// Removes a backend instance if present.
    fn remove_instance(&mut self, x: &Instance)
        ensures
            final(self)@ == spec_apply(old(self)@, OrderV::RemoveInstance(x@), true),
    {
        let mut out: Vec<Instance> = Vec::new();
        let mut i: usize = 0;
        while i < self.instances.len()
            invariant
                0 <= i <= self.instances@.len(),
                self == old(self),
                instances_view(out@) =~= instances_view(self.instances@).take(i as int).filter(
                    not_instance(x@),
                ),
            decreases self.instances@.len() - i,
        {
            let ghost pre = instances_view(self.instances@).take(i as int);
            let ghost post = instances_view(self.instances@).take(i as int + 1);
            proof {
                reveal(Seq::filter);
                assert(post.drop_last() =~= pre);
                assert(post.last() == instances_view(self.instances@)[i as int]);
            }
            if !instance_eq(&self.instances[i], x) {
                let ghost out0 = out@;
                let c = clone_instance(&self.instances[i]);
                out.push(c);
                proof {
                    assert(instances_view(out@) =~= instances_view(out0).push(
                        self.instances@[i as int]@,
                    ));
                }
            }
            i = i + 1;
        }
        proof {
            assert(instances_view(self.instances@).take(self.instances@.len() as int)
                =~= instances_view(self.instances@));
        }
        self.instances = out;
    }

    /// Adds a certificate unless present.
    fn add_cert(&mut self, c: &String)
        ensures
            final(self)@ == spec_apply(old(self)@, OrderV::AddCertificate(c@), true),
    {
        if !self.contains_cert(c.as_str()) {
            self.certificates.push(c.clone());
            proof {
                assert(certs_view(self.certificates@) =~= certs_view(
                    old(self).certificates@,
                ).push(c@));
            }
        }
    }

    /// Removes a certificate if present.
    fn remove_cert(&mut self, c: &String)
        ensures
            final(self)@ == spec_apply(old(self)@, OrderV::RemoveCertificate(c@), true),
    {
        let mut out: Vec<String> = Vec::new();
        let mut i: usize = 0;
        while i < self.certificates.len()
            invariant
                0 <= i <= self.certificates@.len(),
                self == old(self),
                certs_view(out@) =~= certs_view(self.certificates@).take(i as int).filter(
                    not_cert(c@),
                ),
            decreases self.certificates@.len() - i,
        {
            let ghost pre = certs_view(self.certificates@).take(i as int);
            let ghost post = certs_view(self.certificates@).take(i as int + 1);
            proof {
                reveal(Seq::filter);
                assert(post.drop_last() =~= pre);
                assert(post.last() == certs_view(self.certificates@)[i as int]);
            }
            if !str_eq(self.certificates[i].as_str(), c.as_str()) {
                let ghost out0 = out@;
                let cc = self.certificates[i].clone();
                out.push(cc);
                proof {
                    assert(certs_view(out@) =~= certs_view(out0).push(
                        self.certificates@[i as int]@,
                    ));
                }
            }
            i = i + 1;
        }
        proof {
            assert(certs_view(self.certificates@).take(self.certificates@.len() as int)
                =~= certs_view(self.certificates@));
        }
        self.certificates = out;
    }

    /// One order applied with set semantics; see [`spec_apply`].
    pub fn apply(&mut self, o: &Order, with_certs: bool)
        ensures
            final(self)@ == spec_apply(old(self)@, o@, with_certs),
    {
        match o {
            Order::AddHttpFront(f) => {
                self.add_front(f);
            },
            Order::RemoveHttpFront(f) => {
                self.remove_front(f);
            },
            Order::AddInstance(x) => {
                self.add_instance(x);
            },
            Order::RemoveInstance(x) => {
                self.remove_instance(x);
            },
            Order::AddCertificate(c) => {
                if with_certs {
                    self.add_cert(c);
                }
            },
            Order::RemoveCertificate(c) => {
                if with_certs {
                    self.remove_cert(c);
                }
            },
            Order::SoftStop => {},
            Order::HardStop => {},
            Order::Status => {},
        }
    }
}

/// The models of a list of orders.
pub open spec fn orders_view(v: Seq<Order>) -> Seq<OrderV> {
    Seq::new(v.len(), |i: int| v[i]@)
}

/// The deterministic replay sequence of a state: every front, then every
/// backend instance, then every certificate, each as an `Add` order in the
/// order the state holds them.
pub open spec fn orders_of(s: ProxyStateV) -> Seq<OrderV> {
    Seq::new(s.fronts.len(), |i: int| OrderV::AddHttpFront(s.fronts[i])) + Seq::new(
        s.instances.len(),
        |i: int| OrderV::AddInstance(s.instances[i]),
    ) + Seq::new(s.certificates.len(), |i: int| OrderV::AddCertificate(s.certificates[i]))
}

/// A sequence of orders applied in turn.
pub open spec fn replay(s: ProxyStateV, os: Seq<OrderV>, with_certs: bool) -> ProxyStateV
    decreases os.len(),
{
    if os.len() == 0 {
        s
    } else {
        replay(spec_apply(s, os[0], with_certs), os.drop_first(), with_certs)
    }
}

/// The empty state model.
pub open spec fn empty_state() -> ProxyStateV {
    ProxyStateV {
        fronts: Seq::empty(),
        instances: Seq::empty(),
        certificates: Seq::empty(),
    }
}

/// Filtering keeps a sequence whose members all pass the test.
proof fn lemma_filter_noop<A>(t: Seq<A>, p: spec_fn(A) -> bool)
    requires
        forall|i: int| 0 <= i < t.len() ==> p(#[trigger] t[i]),
    ensures
        t.filter(p) == t,
    decreases t.len(),
{
    reveal(Seq::filter);
    if t.len() > 0 {
        lemma_filter_noop(t.drop_last(), p);
        assert(t.drop_last().push(t.last()) =~= t);
    }
}

/// Filtering twice is filtering once.
proof fn lemma_filter_idem<A>(s: Seq<A>, p: spec_fn(A) -> bool)
    ensures
        s.filter(p).filter(p) == s.filter(p),
{
    broadcast use vstd::seq::Seq::lemma_filter_pred;

    lemma_filter_noop(s.filter(p), p);
}

/// Every order is idempotent on the state: a second application of the
/// same order changes nothing. In particular an `Add` of a present item
/// and a `Remove` of an absent one are no-ops.
pub proof fn lemma_apply_idempotent(s: ProxyStateV, o: OrderV, with_certs: bool)
    ensures
        spec_apply(spec_apply(s, o, with_certs), o, with_certs) == spec_apply(s, o, with_certs),
{
    match o {
        OrderV::AddHttpFront(f) => {
            if !s.fronts.contains(f) {
                assert(s.fronts.push(f)[s.fronts.len() as int] == f);
                assert(s.fronts.push(f).contains(f));
            }
        },
        OrderV::RemoveHttpFront(f) => {
            lemma_filter_idem(s.fronts, not_front(f));
        },
        OrderV::AddInstance(x) => {
            if !s.instances.contains(x) {
                assert(s.instances.push(x)[s.instances.len() as int] == x);
                assert(s.instances.push(x).contains(x));
            }
        },
        OrderV::RemoveInstance(x) => {
            lemma_filter_idem(s.instances, not_instance(x));
        },
        OrderV::AddCertificate(c) => {
            if with_certs && !s.certificates.contains(c) {
                assert(s.certificates.push(c)[s.certificates.len() as int] == c);
                assert(s.certificates.push(c).contains(c));
            }
        },
        OrderV::RemoveCertificate(c) => {
            if with_certs {
                lemma_filter_idem(s.certificates, not_cert(c));
            }
        },
        _ => {},
    }
}

/// Replay splits over concatenation.
proof fn lemma_replay_concat(s: ProxyStateV, a: Seq<OrderV>, b: Seq<OrderV>, with_certs: bool)
    ensures
        replay(s, a + b, with_certs) == replay(replay(s, a, with_certs), b, with_certs),
    decreases a.len(),
{
    if a.len() == 0 {
        assert(a + b =~= b);
    } else {
        assert((a + b)[0] == a[0]);
        assert((a + b).drop_first() =~= a.drop_first() + b);
        lemma_replay_concat(spec_apply(s, a[0], with_certs), a.drop_first(), b, with_certs);
    }
}

/// Adding a run of distinct, fresh fronts appends them in order.
proof fn lemma_replay_fronts(st: ProxyStateV, fs: Seq<HttpFrontV>, with_certs: bool)
    requires
        distinct(st.fronts + fs),
    ensures
        replay(st, Seq::new(fs.len(), |i: int| OrderV::AddHttpFront(fs[i])), with_certs)
            == (ProxyStateV { fronts: st.fronts + fs, ..st }),
    decreases fs.len(),
{
    let os = Seq::new(fs.len(), |i: int| OrderV::AddHttpFront(fs[i]));
    if fs.len() == 0 {
        assert(st.fronts + fs =~= st.fronts);
        assert(st == (ProxyStateV { fronts: st.fronts + fs, ..st }));
    } else {
        let f = fs[0];
        assert(!st.fronts.contains(f)) by {
            if st.fronts.contains(f) {
                let i = choose|i: int| 0 <= i < st.fronts.len() && st.fronts[i] == f;
                assert((st.fronts + fs)[i] == f);
                assert((st.fronts + fs)[st.fronts.len() as int] == f);
            }
        }
        let st2 = ProxyStateV { fronts: st.fronts.push(f), ..st };
        assert(spec_apply(st, os[0], with_certs) == st2);
        assert(st2.fronts + fs.drop_first() =~= st.fronts + fs);
        lemma_replay_fronts(st2, fs.drop_first(), with_certs);
        assert(os.drop_first() =~= Seq::new(
            fs.drop_first().len(),
            |i: int| OrderV::AddHttpFront(fs.drop_first()[i]),
        ));
    }
}

/// Adding a run of distinct, fresh backend instances appends them in order.
proof fn lemma_replay_instances(st: ProxyStateV, xs: Seq<InstanceV>, with_certs: bool)
    requires
        distinct(st.instances + xs),
    ensures
        replay(st, Seq::new(xs.len(), |i: int| OrderV::AddInstance(xs[i])), with_certs)
            == (ProxyStateV { instances: st.instances + xs, ..st }),
    decreases xs.len(),
{
    let os = Seq::new(xs.len(), |i: int| OrderV::AddInstance(xs[i]));
    if xs.len() == 0 {
        assert(st.instances + xs =~= st.instances);
        assert(st == (ProxyStateV { instances: st.instances + xs, ..st }));
    } else {
        let x = xs[0];
        assert(!st.instances.contains(x)) by {
            if st.instances.contains(x) {
                let i = choose|i: int| 0 <= i < st.instances.len() && st.instances[i] == x;
                assert((st.instances + xs)[i] == x);
                assert((st.instances + xs)[st.instances.len() as int] == x);
            }
        }
        let st2 = ProxyStateV { instances: st.instances.push(x), ..st };
        assert(spec_apply(st, os[0], with_certs) == st2);
        assert(st2.instances + xs.drop_first() =~= st.instances + xs);
        lemma_replay_instances(st2, xs.drop_first(), with_certs);
        assert(os.drop_first() =~= Seq::new(
            xs.drop_first().len(),
            |i: int| OrderV::AddInstance(xs.drop_first()[i]),
        ));
    }
}

/// Adding a run of distinct, fresh certificates appends them in order.
proof fn lemma_replay_certs(st: ProxyStateV, cs: Seq<Seq<char>>)
    requires
        distinct(st.certificates + cs),
    ensures
        replay(st, Seq::new(cs.len(), |i: int| OrderV::AddCertificate(cs[i])), true)
            == (ProxyStateV { certificates: st.certificates + cs, ..st }),
    decreases cs.len(),
{
    let os = Seq::new(cs.len(), |i: int| OrderV::AddCertificate(cs[i]));
    if cs.len() == 0 {
        assert(st.certificates + cs =~= st.certificates);
        assert(st == (ProxyStateV { certificates: st.certificates + cs, ..st }));
    } else {
        let c = cs[0];
        assert(!st.certificates.contains(c)) by {
            if st.certificates.contains(c) {
                let i = choose|i: int|
                    0 <= i < st.certificates.len() && st.certificates[i] == c;
                assert((st.certificates + cs)[i] == c);
                assert((st.certificates + cs)[st.certificates.len() as int] == c);
            }
        }
        let st2 = ProxyStateV { certificates: st.certificates.push(c), ..st };
        assert(spec_apply(st, os[0], true) == st2);
        assert(st2.certificates + cs.drop_first() =~= st.certificates + cs);
        lemma_replay_certs(st2, cs.drop_first());
        assert(os.drop_first() =~= Seq::new(
            cs.drop_first().len(),
            |i: int| OrderV::AddCertificate(cs.drop_first()[i]),
        ));
    }
}

/// Replaying a well-formed state's own order sequence against an empty
/// worker rebuilds exactly that state: the routing tables a fresh worker
/// derives from `orders` equal those accumulated over the temporal order
/// the mutations arrived in.
pub proof fn lemma_replay_rebuilds(s: ProxyStateV)
    requires
        state_wf(s),
    ensures
        replay(empty_state(), orders_of(s), true) == s,
{
    let fa = Seq::new(s.fronts.len(), |i: int| OrderV::AddHttpFront(s.fronts[i]));
    let ia = Seq::new(s.instances.len(), |i: int| OrderV::AddInstance(s.instances[i]));
    let ca = Seq::new(s.certificates.len(), |i: int| OrderV::AddCertificate(s.certificates[i]));
    lemma_replay_concat(empty_state(), fa + ia, ca, true);
    lemma_replay_concat(empty_state(), fa, ia, true);
    let st0 = empty_state();
    assert(st0.fronts + s.fronts =~= s.fronts);
    lemma_replay_fronts(st0, s.fronts, true);
    let st1 = ProxyStateV { fronts: s.fronts, ..st0 };
    assert(st1.instances + s.instances =~= s.instances);
    lemma_replay_instances(st1, s.instances, true);
    let st2 = ProxyStateV { instances: s.instances, ..st1 };
    assert(st2.certificates + s.certificates =~= s.certificates);
    lemma_replay_certs(st2, s.certificates);
    let st3 = ProxyStateV { certificates: s.certificates, ..st2 };
    assert(st3 == s);
    assert(orders_of(s) == (fa + ia) + ca);
}

impl ProxyState {
    /// The deterministic `Add` sequence that rebuilds this state from
    /// empty; see [`orders_of`] and [`lemma_replay_rebuilds`].
    #[verifier::loop_isolation(false)]
    pub fn orders(&self) -> (r: Vec<Order>)
        ensures
            orders_view(r@) == orders_of(self@),
    {
        let ghost fa = Seq::new(
            fronts_view(self.fronts@).len(),
            |k: int| OrderV::AddHttpFront(fronts_view(self.fronts@)[k]),
        );
        let ghost ia = Seq::new(
            instances_view(self.instances@).len(),
            |k: int| OrderV::AddInstance(instances_view(self.instances@)[k]),
        );
        let ghost ca = Seq::new(
            certs_view(self.certificates@).len(),
            |k: int| OrderV::AddCertificate(certs_view(self.certificates@)[k]),
        );
        let mut r: Vec<Order> = Vec::new();
        let mut i: usize = 0;
        proof {
            assert(orders_view(r@) =~= fa.take(0));
        }
        while i < self.fronts.len()
            invariant
                0 <= i <= self.fronts@.len(),
                fa.len() == self.fronts@.len(),
                orders_view(r@) == fa.take(i as int),
            decreases self.fronts@.len() - i,
        {
            let ghost r0 = r@;
            let c = clone_front(&self.fronts[i]);
            r.push(Order::AddHttpFront(c));
            proof {
                assert(orders_view(r@) =~= orders_view(r0).push(OrderV::AddHttpFront(c@)));
                assert(c@ == fronts_view(self.fronts@)[i as int]);
                assert(fa[i as int] == OrderV::AddHttpFront(c@));
                assert(orders_view(r@) =~= fa.take(i as int + 1));
            }
            i = i + 1;
        }
        proof {
            assert(fa.take(fa.len() as int) =~= fa);
        }
        let mut i: usize = 0;
        while i < self.instances.len()
            invariant
                0 <= i <= self.instances@.len(),
                ia.len() == self.instances@.len(),
                orders_view(r@) == fa + ia.take(i as int),
            decreases self.instances@.len() - i,
        {
            let ghost r0 = r@;
            let c = clone_instance(&self.instances[i]);
            r.push(Order::AddInstance(c));
            proof {
                assert(orders_view(r@) =~= orders_view(r0).push(OrderV::AddInstance(c@)));
                assert(c@ == instances_view(self.instances@)[i as int]);
                assert(ia[i as int] == OrderV::AddInstance(c@));
                assert(orders_view(r@) =~= fa + ia.take(i as int + 1));
            }
            i = i + 1;
        }
        proof {
            assert(ia.take(ia.len() as int) =~= ia);
        }
        let mut i: usize = 0;
        while i < self.certificates.len()
            invariant
                0 <= i <= self.certificates@.len(),
                ca.len() == self.certificates@.len(),
                orders_view(r@) == (fa + ia) + ca.take(i as int),
            decreases self.certificates@.len() - i,
        {
            let ghost r0 = r@;
            let c = self.certificates[i].clone();
            r.push(Order::AddCertificate(c));
            proof {
                assert(orders_view(r@) =~= orders_view(r0).push(OrderV::AddCertificate(c@)));
                assert(c@ == certs_view(self.certificates@)[i as int]);
                assert(ca[i as int] == OrderV::AddCertificate(c@));
                assert(orders_view(r@) =~= (fa + ia) + ca.take(i as int + 1));
            }
            i = i + 1;
        }
        proof {
            assert(ca.take(ca.len() as int) =~= ca);
            assert(orders_view(r@) =~= orders_of(self@));
        }
        r
    }
}

} // verus!

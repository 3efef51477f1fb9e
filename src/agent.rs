//! The request-handling engine of an SNMPv1 agent: community check, dispatch
//! on the PDU kind, and Get, GetNext and Set against the object store.
use crate::asn1::model::{oid_valid, MAX_LENGTH};
use crate::buf::{buf_into_vec, new_buf};
use crate::mib::{
    is_next_key, lemma_next_key_exists, lemma_next_key_unique, lemma_oid_lt_irreflexive, lemma_oid_lt_transitive, next_key,
    oid_lt, slices_eq, store_valid, MibStore,
};
use crate::snmp::{
    build_response_message, decode_snmp_message, enc_message, enc_pdu, message_content,
    parse_message, response_message, value_valid, varbind_valid, varbinds_valid, varbinds_view,
    MessageModel, PduType, SnmpMessage, SnmpError, SnmpValue, ValueModel, Varbind, VarbindModel,
};
use vstd::prelude::*;

verus! {

/// The noSuchName error status.
pub const NO_SUCH_NAME: i32 = 2;

/// The position of the first `true`, or -1.
pub open spec fn first_true(s: Seq<bool>) -> int
    decreases s.len(),
{
    if s.len() == 0 {
        -1
    } else {
        let f = first_true(s.drop_last());
        if f >= 0 {
            f
        } else if s.last() {
            s.len() - 1
        } else {
            -1
        }
    }
}

/// The error status for the first miss at `first` (-1: none).
pub open spec fn status_of(first: int) -> i32 {
    if first >= 0 {
        NO_SUCH_NAME
    } else {
        0
    }
}

/// The one-based error index for the first miss at `first` (-1: none),
/// held at `i32::MAX`.
pub open spec fn index_of(first: int) -> i32 {
    if first < 0 {
        0
    } else if first + 1 <= i32::MAX {
        (first + 1) as i32
    } else {
        i32::MAX
    }
}

/// Which requested OIDs Get finds no value for.
pub open spec fn get_misses(m: Map<Seq<u32>, ValueModel>, reqs: Seq<VarbindModel>) -> Seq<bool> {
    Seq::new(reqs.len(), |i: int| !m.contains_key(reqs[i].oid))
}

/// Get's varbinds: each requested OID with its stored value, or with Null.
pub open spec fn get_answer(m: Map<Seq<u32>, ValueModel>, reqs: Seq<VarbindModel>) -> Seq<
    VarbindModel,
> {
    Seq::new(
        reqs.len(),
        |i: int|
            if m.contains_key(reqs[i].oid) {
                VarbindModel { oid: reqs[i].oid, value: m[reqs[i].oid] }
            } else {
                VarbindModel { oid: reqs[i].oid, value: ValueModel::Null }
            },
    )
}

/// Which requested OIDs GetNext finds no later key for.
pub open spec fn next_misses(m: Map<Seq<u32>, ValueModel>, reqs: Seq<VarbindModel>) -> Seq<bool> {
    Seq::new(reqs.len(), |i: int| next_key(m, reqs[i].oid) is None)
}

/// GetNext's varbinds: for each requested OID the least later key with its
/// value, or the requested OID with Null.
pub open spec fn get_next_answer(m: Map<Seq<u32>, ValueModel>, reqs: Seq<VarbindModel>) -> Seq<
    VarbindModel,
> {
    Seq::new(
        reqs.len(),
        |i: int|
            match next_key(m, reqs[i].oid) {
                Some(k) => VarbindModel { oid: k, value: m[k] },
                None => VarbindModel { oid: reqs[i].oid, value: ValueModel::Null },
            },
    )
}

/// The store after Set has assigned every varbind, in order.
pub open spec fn set_all(m: Map<Seq<u32>, ValueModel>, reqs: Seq<VarbindModel>) -> Map<
    Seq<u32>,
    ValueModel,
>
    decreases reqs.len(),
{
    if reqs.len() == 0 {
        m
    } else {
        set_all(m, reqs.drop_last()).insert(reqs.last().oid, reqs.last().value)
    }
}

/// The encoded response to `request`, or nothing when it does not fit in
/// four-byte lengths.
pub open spec fn encoded_response(
    request: MessageModel,
    vbs: Seq<VarbindModel>,
    status: i32,
    index: i32,
) -> Option<Seq<u8>> {
    let m = response_message(request, vbs, status, index);
    if message_content(m.version, m.community, enc_pdu(m.pdu)).len() <= MAX_LENGTH {
        Some(enc_message(m))
    } else {
        None
    }
}

/// What the agent answers to a decoded request, and its store afterwards.
pub open spec fn respond(m: Map<Seq<u32>, ValueModel>, request: MessageModel) -> (
    Option<Seq<u8>>,
    Map<Seq<u32>, ValueModel>,
) {
    let reqs = request.pdu.varbinds;
    match request.pdu.pdu_type {
        PduType::GET_REQUEST => {
            let f = first_true(get_misses(m, reqs));
            (encoded_response(request, get_answer(m, reqs), status_of(f), index_of(f)), m)
        },
        PduType::GET_NEXT_REQUEST => {
            let f = first_true(next_misses(m, reqs));
            (encoded_response(request, get_next_answer(m, reqs), status_of(f), index_of(f)), m)
        },
        PduType::SET_REQUEST => (encoded_response(request, reqs, 0, 0), set_all(m, reqs)),
        PduType::GET_RESPONSE => (None, m),
    }
}

/// What the agent answers to a datagram, and its store afterwards: nothing
/// to what does not decode or carries a community it does not accept.
pub open spec fn agent_step(
    m: Map<Seq<u32>, ValueModel>,
    communities: Seq<Seq<u8>>,
    data: Seq<u8>,
) -> (Option<Seq<u8>>, Map<Seq<u32>, ValueModel>) {
    match parse_message(data) {
        Err(_) => (None, m),
        Ok(request) => if communities.contains(request.community) {
            respond(m, request)
        } else {
            (None, m)
        },
    }
}

pub open spec fn opt_bytes(r: Option<Vec<u8>>) -> Option<Seq<u8>> {
    match r {
        Some(v) => Some(v@),
        None => None,
    }
}

pub proof fn lemma_get_answer_valid(m: Map<Seq<u32>, ValueModel>, reqs: Seq<VarbindModel>)
    requires
        store_valid(m),
        varbinds_valid(reqs),
    ensures
        varbinds_valid(get_answer(m, reqs)),
{
    assert forall|i: int| 0 <= i < get_answer(m, reqs).len() implies #[trigger] varbind_valid(
        get_answer(m, reqs)[i],
    ) by {
        assert(varbind_valid(reqs[i]));
    }
}

pub proof fn lemma_get_next_answer_valid(m: Map<Seq<u32>, ValueModel>, reqs: Seq<VarbindModel>)
    requires
        store_valid(m),
        varbinds_valid(reqs),
    ensures
        varbinds_valid(get_next_answer(m, reqs)),
{
    assert forall|i: int| 0 <= i < get_next_answer(m, reqs).len() implies #[trigger] varbind_valid(
        get_next_answer(m, reqs)[i],
    ) by {
        assert(varbind_valid(reqs[i]));
        if let Some(k) = next_key(m, reqs[i].oid) {
            let c = choose|k: Seq<u32>| crate::mib::is_next_key(m, reqs[i].oid, k);
            assert(m.contains_key(c));
        }
    }
}

/// A copy of the varbinds.
pub fn copy_varbinds(v: &Vec<Varbind>) -> (r: Vec<Varbind>)
    ensures
        varbinds_view(r@) == varbinds_view(v@),
{
    let mut out: Vec<Varbind> = Vec::new();
    let mut i: usize = 0;
    while i < v.len()
        invariant
            i <= v.len(),
            varbinds_view(out@) == varbinds_view(v@).take(i as int),
        decreases v.len() - i,
    {
        let b = Varbind { oid: v[i].oid.clone(), value: v[i].value.duplicate() };
        assert(b@ == varbinds_view(v@)[i as int]);
        let ghost prev = out@;
        out.push(b);
        assert(varbinds_view(out@) =~= varbinds_view(prev).push(b@));
        assert(varbinds_view(out@) =~= varbinds_view(v@).take(i + 1));
        i += 1;
    }
    assert(varbinds_view(v@).take(v.len() as int) =~= varbinds_view(v@));
    out
}

/// The one-based index for a miss at position `j`, held at `i32::MAX`.
fn index_for(miss: Option<usize>) -> (r: i32)
    ensures
        r == index_of(
            match miss {
                Some(j) => j as int,
                None => -1,
            },
        ),
{
    match miss {
        Some(j) => if j < i32::MAX as usize {
            (j + 1) as i32
        } else {
            i32::MAX
        },
        None => 0,
    }
}

/// An agent's state: the communities it accepts and its object store.
pub struct SnmpAgent {
    communities: Vec<Vec<u8>>,
    mib: MibStore,
}

impl SnmpAgent {
    pub closed spec fn wf(&self) -> bool {
        self.mib.wf()
    }

    /// What the store holds.
    pub closed spec fn store(&self) -> Map<Seq<u32>, ValueModel> {
        self.mib@
    }

    /// The accepted community strings.
    pub closed spec fn communities(&self) -> Seq<Seq<u8>> {
        self.communities@.map_values(|c: Vec<u8>| c@)
    }

    /// The store holds finitely many keys.
    pub proof fn lemma_store_finite(&self)
        requires
            self.wf(),
        ensures
            self.store().dom().finite(),
    {
        self.mib.lemma_finite();
    }

    /// An agent that accepts `communities`, with an empty store.
    pub fn new(communities: Vec<Vec<u8>>) -> (r: SnmpAgent)
        ensures
            r.wf(),
            r.store() == Map::<Seq<u32>, ValueModel>::empty(),
            r.communities() == communities@.map_values(|c: Vec<u8>| c@),
    {
        SnmpAgent { communities, mib: MibStore::new() }
    }

    /// Stores `value` under `oid`, replacing what was there.
    pub fn register_oid(&mut self, oid: Vec<u32>, value: SnmpValue)
        requires
            old(self).wf(),
            oid_valid(oid@),
            value_valid(value@),
        ensures
            final(self).wf(),
            final(self).store() == old(self).store().insert(oid@, value@),
            final(self).communities() == old(self).communities(),
    {
        self.mib.insert(oid, value);
    }

    /// Whether `community` is one of the accepted ones.
    pub fn accepts(&self, community: &[u8]) -> (r: bool)
        ensures
            r == self.communities().contains(community@),
    {
        let mut i: usize = 0;
        while i < self.communities.len()
            invariant
                i <= self.communities@.len(),
                forall|j: int| 0 <= j < i ==> self.communities@[j]@ != community@,
            decreases self.communities.len() - i,
        {
            if slices_eq(self.communities[i].as_slice(), community) {
                assert(self.communities()[i as int] == community@);
                return true;
            }
            i += 1;
        }
        proof {
            if self.communities().contains(community@) {
                let j = choose|j: int|
                    0 <= j < self.communities().len() && self.communities()[j] == community@;
                assert(self.communities@[j]@ == community@);
            }
        }
        false
    }

    /// Encodes the response to `request` with the given varbinds.
    fn respond_with(request: &SnmpMessage, vbs: Vec<Varbind>, status: i32, index: i32) -> (r: Option<
        Vec<u8>,
    >)
        requires
            varbinds_valid(varbinds_view(vbs@)),
        ensures
            opt_bytes(r) == encoded_response(request@, varbinds_view(vbs@), status, index),
    {
        let mut buf = new_buf();
        match build_response_message(request, vbs, status, index, &mut buf) {
            Ok(_) => {
                let out = buf_into_vec(buf);
                assert(out@ =~= enc_message(
                    response_message(request@, varbinds_view(vbs@), status, index),
                ));
                Some(out)
            },
            Err(_) => None,
        }
    }

    /// Answers a GetRequest: each requested OID with its stored value; a
    /// missing one with Null, the first miss setting noSuchName and its
    /// one-based index.
    pub fn handle_get_request(&self, request: &SnmpMessage) -> (r: Option<Vec<u8>>)
        requires
            self.wf(),
            varbinds_valid(request@.pdu.varbinds),
        ensures
            ({
                let reqs = request@.pdu.varbinds;
                let f = first_true(get_misses(self.store(), reqs));
                opt_bytes(r) == encoded_response(
                    request@,
                    get_answer(self.store(), reqs),
                    status_of(f),
                    index_of(f),
                )
            }),
    {
        let ghost m = self.store();
        let reqs = &request.pdu.varbinds;
        let ghost rv = varbinds_view(reqs@);
        let mut out: Vec<Varbind> = Vec::new();
        let mut miss: Option<usize> = None;
        let mut i: usize = 0;
        while i < reqs.len()
            invariant
                self.wf(),
                m == self.store(),
                rv == varbinds_view(reqs@),
                i <= reqs.len(),
                varbinds_view(out@) == get_answer(m, rv.take(i as int)),
                first_true(get_misses(m, rv.take(i as int))) == match miss {
                    Some(j) => j as int,
                    None => -1,
                },
            decreases reqs.len() - i,
        {
            let oid = reqs[i].oid.as_slice();
            let value = match self.mib.get(oid) {
                Some(v) => v.duplicate(),
                None => {
                    if miss.is_none() {
                        miss = Some(i);
                    }
                    SnmpValue::Null
                },
            };
            let b = Varbind { oid: reqs[i].oid.clone(), value };
            assert(b@ == get_answer(m, rv.take(i + 1))[i as int]);
            let ghost prev = out@;
            out.push(b);
            proof {
                assert(varbinds_view(out@) =~= varbinds_view(prev).push(b@));
                assert(varbinds_view(out@) =~= get_answer(m, rv.take(i + 1)));
                assert(get_misses(m, rv.take(i + 1)).drop_last() =~= get_misses(
                    m,
                    rv.take(i as int),
                ));
            }
            i += 1;
        }
        proof {
            assert(rv.take(reqs.len() as int) =~= rv);
            self.mib.lemma_valid();
            lemma_get_answer_valid(m, rv);
        }
        let status = if miss.is_some() {
            NO_SUCH_NAME
        } else {
            0
        };
        Self::respond_with(request, out, status, index_for(miss))
    }

    /// Answers a GetNextRequest: for each requested OID the least stored key
    /// strictly after it, with its value; where there is none, the requested
    /// OID with Null, the first such setting noSuchName and its one-based
    /// index.
    pub fn handle_get_next_request(&self, request: &SnmpMessage) -> (r: Option<Vec<u8>>)
        requires
            self.wf(),
            varbinds_valid(request@.pdu.varbinds),
        ensures
            ({
                let reqs = request@.pdu.varbinds;
                let f = first_true(next_misses(self.store(), reqs));
                opt_bytes(r) == encoded_response(
                    request@,
                    get_next_answer(self.store(), reqs),
                    status_of(f),
                    index_of(f),
                )
            }),
    {
        let ghost m = self.store();
        let reqs = &request.pdu.varbinds;
        let ghost rv = varbinds_view(reqs@);
        let mut out: Vec<Varbind> = Vec::new();
        let mut miss: Option<usize> = None;
        let mut i: usize = 0;
        while i < reqs.len()
            invariant
                self.wf(),
                m == self.store(),
                rv == varbinds_view(reqs@),
                i <= reqs.len(),
                varbinds_view(out@) == get_next_answer(m, rv.take(i as int)),
                first_true(next_misses(m, rv.take(i as int))) == match miss {
                    Some(j) => j as int,
                    None => -1,
                },
            decreases reqs.len() - i,
        {
            let b = match self.mib.get_next(reqs[i].oid.as_slice()) {
                Some(e) => Varbind { oid: e.oid.clone(), value: e.value.duplicate() },
                None => {
                    if miss.is_none() {
                        miss = Some(i);
                    }
                    Varbind { oid: reqs[i].oid.clone(), value: SnmpValue::Null }
                },
            };
            assert(b@ == get_next_answer(m, rv.take(i + 1))[i as int]);
            let ghost prev = out@;
            out.push(b);
            proof {
                assert(varbinds_view(out@) =~= varbinds_view(prev).push(b@));
                assert(varbinds_view(out@) =~= get_next_answer(m, rv.take(i + 1)));
                assert(next_misses(m, rv.take(i + 1)).drop_last() =~= next_misses(
                    m,
                    rv.take(i as int),
                ));
            }
            i += 1;
        }
        proof {
            assert(rv.take(reqs.len() as int) =~= rv);
            self.mib.lemma_valid();
            lemma_get_next_answer_valid(m, rv);
        }
        let status = if miss.is_some() {
            NO_SUCH_NAME
        } else {
            0
        };
        Self::respond_with(request, out, status, index_for(miss))
    }

    /// Answers a SetRequest: assigns every varbind in order, then echoes
    /// them with error status 0.
    pub fn handle_set_request(&mut self, request: &SnmpMessage) -> (r: Option<Vec<u8>>)
        requires
            old(self).wf(),
            varbinds_valid(request@.pdu.varbinds),
        ensures
            final(self).wf(),
            final(self).communities() == old(self).communities(),
            final(self).store() == set_all(old(self).store(), request@.pdu.varbinds),
            opt_bytes(r) == encoded_response(request@, request@.pdu.varbinds, 0, 0),
    {
        let reqs = &request.pdu.varbinds;
        let ghost rv = varbinds_view(reqs@);
        let ghost m0 = self.store();
        let mut i: usize = 0;
        assert(rv.take(0) =~= Seq::<VarbindModel>::empty());
        while i < reqs.len()
            invariant
                self.wf(),
                self.communities() == old(self).communities(),
                m0 == old(self).store(),
                rv == varbinds_view(reqs@),
                varbinds_valid(rv),
                i <= reqs.len(),
                self.store() == set_all(m0, rv.take(i as int)),
            decreases reqs.len() - i,
        {
            assert(varbind_valid(rv[i as int]));
            self.mib.insert(reqs[i].oid.clone(), reqs[i].value.duplicate());
            assert(rv.take(i + 1).drop_last() =~= rv.take(i as int));
            i += 1;
        }
        assert(rv.take(reqs.len() as int) =~= rv);
        Self::respond_with(request, copy_varbinds(reqs), 0, 0)
    }

    /// Handles one datagram: decodes it, drops it when it does not decode or
    /// its community is not accepted, and otherwise dispatches on the PDU
    /// kind. Returns the encoded response, if any.
    pub fn process_message(&mut self, data: &[u8]) -> (r: Option<Vec<u8>>)
        requires
            old(self).wf(),
        ensures
            final(self).wf(),
            final(self).communities() == old(self).communities(),
            (opt_bytes(r), final(self).store()) == agent_step(
                old(self).store(),
                old(self).communities(),
                data@,
            ),
    {
        let message = match decode_snmp_message(data) {
            Ok(m) => m,
            Err(_) => return None,
        };
        if !self.accepts(message.community.as_slice()) {
            return None;
        }
        match message.pdu.pdu_type {
            PduType::GET_REQUEST => self.handle_get_request(&message),
            PduType::GET_NEXT_REQUEST => self.handle_get_next_request(&message),
            PduType::SET_REQUEST => self.handle_set_request(&message),
            PduType::GET_RESPONSE => None,
        }
    }
}


/// Some key of `m` comes after `q`.
pub open spec fn has_key_after(m: Map<Seq<u32>, ValueModel>, q: Seq<u32>) -> bool {
    exists|key: Seq<u32>| m.contains_key(key) && oid_lt(q, key)
}

pub proof fn lemma_first_true(s: Seq<bool>)
    ensures
        first_true(s) == -1 ==> forall|i: int| 0 <= i < s.len() ==> !#[trigger] s[i],
        first_true(s) != -1 ==> 0 <= first_true(s) < s.len() && s[first_true(s)] && forall|i: int|
            0 <= i < first_true(s) ==> !#[trigger] s[i],
    decreases s.len(),
{
    if s.len() > 0 {
        let t = s.drop_last();
        lemma_first_true(t);
        if first_true(s) == -1 {
            assert forall|i: int| 0 <= i < s.len() implies !#[trigger] s[i] by {
                if i < s.len() - 1 {
                    assert(s[i] == t[i]);
                }
            }
        } else {
            let f = first_true(s);
            assert forall|i: int| 0 <= i < f implies !#[trigger] s[i] by {
                assert(s[i] == t[i]);
            }
        }
    }
}

/// Get of registered OIDs answers each with its stored value, in the order
/// asked, with error status and index 0.
pub proof fn lemma_get_registered(m: Map<Seq<u32>, ValueModel>, reqs: Seq<VarbindModel>)
    requires
        forall|i: int| 0 <= i < reqs.len() ==> m.contains_key(#[trigger] reqs[i].oid),
    ensures
        get_answer(m, reqs).len() == reqs.len(),
        forall|i: int|
            0 <= i < reqs.len() ==> #[trigger] get_answer(m, reqs)[i] == (VarbindModel {
                oid: reqs[i].oid,
                value: m[reqs[i].oid],
            }),
        status_of(first_true(get_misses(m, reqs))) == 0,
        index_of(first_true(get_misses(m, reqs))) == 0,
{
    let ms = get_misses(m, reqs);
    lemma_first_true(ms);
    if first_true(ms) != -1 {
        assert(ms[first_true(ms)]);
    }
}

/// Get of an OID that is not registered answers Null in its position, with
/// noSuchName, and the error index names the first miss, at or before it.
pub proof fn lemma_get_missing(m: Map<Seq<u32>, ValueModel>, reqs: Seq<VarbindModel>, i: int)
    requires
        0 <= i < reqs.len(),
        !m.contains_key(reqs[i].oid),
    ensures
        get_answer(m, reqs)[i] == (VarbindModel { oid: reqs[i].oid, value: ValueModel::Null }),
        status_of(first_true(get_misses(m, reqs))) == NO_SUCH_NAME,
        ({
            let f = first_true(get_misses(m, reqs));
            &&& 0 <= f <= i
            &&& !m.contains_key(reqs[f].oid)
            &&& forall|j: int| 0 <= j < f ==> m.contains_key(#[trigger] reqs[j].oid)
            &&& f < i32::MAX ==> index_of(f) == f + 1
        }),
{
    let ms = get_misses(m, reqs);
    lemma_first_true(ms);
    assert(ms[i]);
    assert forall|j: int| 0 <= j < first_true(ms) implies m.contains_key(#[trigger] reqs[j].oid) by {
        assert(!ms[j]);
    }
}

/// GetNext of an OID before the least stored key answers that key and its
/// value.
pub proof fn lemma_get_next_below_min(
    m: Map<Seq<u32>, ValueModel>,
    q: Seq<u32>,
    kmin: Seq<u32>,
)
    requires
        m.contains_key(kmin),
        forall|k: Seq<u32>| #[trigger] m.contains_key(k) ==> k == kmin || oid_lt(kmin, k),
        oid_lt(q, kmin),
    ensures
        next_key(m, q) == Some(kmin),
        get_next_answer(m, seq![VarbindModel { oid: q, value: ValueModel::Null }]) == seq![
            VarbindModel { oid: kmin, value: m[kmin] },
        ],
        first_true(next_misses(m, seq![VarbindModel { oid: q, value: ValueModel::Null }])) == -1,
{
    assert(is_next_key(m, q, kmin));
    lemma_next_key_unique(m, q, kmin);
    let reqs = seq![VarbindModel { oid: q, value: ValueModel::Null }];
    assert(get_next_answer(m, reqs) =~= seq![VarbindModel { oid: kmin, value: m[kmin] }]);
    assert(next_misses(m, reqs).drop_last() =~= Seq::<bool>::empty());
    assert(!next_misses(m, reqs).last());
    assert(first_true(Seq::<bool>::empty()) == -1);
}

/// GetNext of the greatest stored key answers it with Null, with
/// noSuchName, and the error index names the first miss, at or before it.
pub proof fn lemma_get_next_at_max(m: Map<Seq<u32>, ValueModel>, reqs: Seq<VarbindModel>, i: int)
    requires
        0 <= i < reqs.len(),
        m.contains_key(reqs[i].oid),
        forall|k: Seq<u32>| #[trigger] m.contains_key(k) ==> k == reqs[i].oid || oid_lt(k, reqs[i].oid),
    ensures
        next_key(m, reqs[i].oid) is None,
        get_next_answer(m, reqs)[i] == (VarbindModel { oid: reqs[i].oid, value: ValueModel::Null }),
        status_of(first_true(next_misses(m, reqs))) == NO_SUCH_NAME,
        ({
            let f = first_true(next_misses(m, reqs));
            &&& 0 <= f <= i
            &&& next_key(m, reqs[f].oid) is None
            &&& f < i32::MAX ==> index_of(f) == f + 1
            &&& (m.dom().finite() && forall|j: int|
                0 <= j < i ==> has_key_after(m, #[trigger] reqs[j].oid)) ==> f == i
        }),
{
    let q = reqs[i].oid;
    if exists|k: Seq<u32>| is_next_key(m, q, k) {
        let k = choose|k: Seq<u32>| is_next_key(m, q, k);
        assert(m.contains_key(k));
        if k == q {
            lemma_oid_lt_irreflexive(q);
        } else {
            lemma_oid_lt_transitive(q, k, q);
            lemma_oid_lt_irreflexive(q);
        }
    }
    let ms = next_misses(m, reqs);
    lemma_first_true(ms);
    assert(ms[i]);
    let f = first_true(ms);
    if m.dom().finite() && forall|j: int| 0 <= j < i ==> has_key_after(m, #[trigger] reqs[j].oid) {
        if f < i {
            assert(has_key_after(m, reqs[f].oid));
            let key = choose|key: Seq<u32>| m.contains_key(key) && oid_lt(reqs[f].oid, key);
            lemma_next_key_exists(m, reqs[f].oid, key);
        }
    }
}

/// In a finite store, GetNext of an OID before some stored key answers, in
/// its position, the least stored key after it and that key's value.
pub proof fn lemma_get_next_found(
    m: Map<Seq<u32>, ValueModel>,
    reqs: Seq<VarbindModel>,
    i: int,
    k: Seq<u32>,
)
    requires
        m.dom().finite(),
        0 <= i < reqs.len(),
        m.contains_key(k),
        oid_lt(reqs[i].oid, k),
    ensures
        next_key(m, reqs[i].oid) is Some,
        ({
            let kn = next_key(m, reqs[i].oid)->Some_0;
            &&& is_next_key(m, reqs[i].oid, kn)
            &&& get_next_answer(m, reqs)[i] == (VarbindModel { oid: kn, value: m[kn] })
            &&& !next_misses(m, reqs)[i]
        }),
{
    lemma_next_key_exists(m, reqs[i].oid, k);
}

/// Set of an OID stores it, and a Get of it afterwards answers the value set,
/// with error status 0.
pub proof fn lemma_set_then_get(m: Map<Seq<u32>, ValueModel>, b: VarbindModel)
    ensures
        set_all(m, seq![b]) == m.insert(b.oid, b.value),
        ({
            let m2 = set_all(m, seq![b]);
            let get = seq![VarbindModel { oid: b.oid, value: ValueModel::Null }];
            &&& m2.contains_key(b.oid)
            &&& get_answer(m2, get) == seq![b]
            &&& first_true(get_misses(m2, get)) == -1
        }),
{
    let reqs = seq![b];
    assert(reqs.drop_last() =~= Seq::<VarbindModel>::empty());
    assert(set_all(m, reqs.drop_last()) == m);
    assert(reqs.last() == b);
    let m2 = set_all(m, reqs);
    assert(m2 == m.insert(b.oid, b.value));
    let get = seq![VarbindModel { oid: b.oid, value: ValueModel::Null }];
    assert(get_answer(m2, get) =~= seq![b]);
    assert(get_misses(m2, get).drop_last() =~= Seq::<bool>::empty());
    assert(!get_misses(m2, get).last());
    assert(first_true(Seq::<bool>::empty()) == -1);
}

/// A datagram whose community is not accepted gets no answer and leaves the
/// store as it was.
pub proof fn lemma_bad_community(
    m: Map<Seq<u32>, ValueModel>,
    communities: Seq<Seq<u8>>,
    data: Seq<u8>,
    request: MessageModel,
)
    requires
        parse_message(data) == Ok::<MessageModel, SnmpError>(request),
        !communities.contains(request.community),
    ensures
        agent_step(m, communities, data) == (None::<Seq<u8>>, m),
{
}

} // verus!

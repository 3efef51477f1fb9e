//! The object store of an agent: values keyed by OID, with exact lookup and
//! lookup of the least key strictly after a given OID.
use crate::asn1::model::oid_valid;
use crate::snmp::{value_valid, varbind_valid, varbinds_view, SnmpValue, ValueModel, Varbind, VarbindModel};
use vstd::prelude::*;
use vstd::std_specs::cmp::PartialEqSpec;
use vstd::seq_lib::seq_to_set_is_finite;

verus! {

/// Lexicographic order on OIDs: at the first position where they differ the
/// smaller component wins, and a proper prefix comes before its extensions.
pub open spec fn oid_lt(a: Seq<u32>, b: Seq<u32>) -> bool
    decreases a.len(),
{
    if b.len() == 0 {
        false
    } else if a.len() == 0 {
        true
    } else if a[0] != b[0] {
        a[0] < b[0]
    } else {
        oid_lt(a.drop_first(), b.drop_first())
    }
}

pub proof fn lemma_oid_lt_irreflexive(a: Seq<u32>)
    ensures
        !oid_lt(a, a),
    decreases a.len(),
{
    if a.len() > 0 {
        lemma_oid_lt_irreflexive(a.drop_first());
    }
}

pub proof fn lemma_oid_lt_transitive(a: Seq<u32>, b: Seq<u32>, c: Seq<u32>)
    requires
        oid_lt(a, b),
        oid_lt(b, c),
    ensures
        oid_lt(a, c),
    decreases a.len(),
{
    if a.len() > 0 && b.len() > 0 && c.len() > 0 && a[0] == b[0] && b[0] == c[0] {
        lemma_oid_lt_transitive(a.drop_first(), b.drop_first(), c.drop_first());
    }
}

pub proof fn lemma_oid_lt_total(a: Seq<u32>, b: Seq<u32>)
    ensures
        a == b || oid_lt(a, b) || oid_lt(b, a),
    decreases a.len(),
{
    if a.len() == 0 && b.len() == 0 {
        assert(a =~= b);
    } else if a.len() > 0 && b.len() > 0 && a[0] == b[0] {
        lemma_oid_lt_total(a.drop_first(), b.drop_first());
        if a.drop_first() == b.drop_first() {
            assert(a =~= seq![a[0]] + a.drop_first());
            assert(b =~= seq![b[0]] + b.drop_first());
        }
    }
}

/// `k` is the least key of `m` strictly after `q`.
pub open spec fn is_next_key(m: Map<Seq<u32>, ValueModel>, q: Seq<u32>, k: Seq<u32>) -> bool {
    &&& m.contains_key(k)
    &&& oid_lt(q, k)
    &&& forall|k2: Seq<u32>| #[trigger] m.contains_key(k2) && oid_lt(q, k2) ==> k == k2 || oid_lt(
        k,
        k2,
    )
}

/// The least key of `m` strictly after `q`, if there is one.
pub open spec fn next_key(m: Map<Seq<u32>, ValueModel>, q: Seq<u32>) -> Option<Seq<u32>> {
    if exists|k: Seq<u32>| is_next_key(m, q, k) {
        Some(choose|k: Seq<u32>| is_next_key(m, q, k))
    } else {
        None
    }
}

pub proof fn lemma_next_key_unique(m: Map<Seq<u32>, ValueModel>, q: Seq<u32>, k: Seq<u32>)
    requires
        is_next_key(m, q, k),
    ensures
        next_key(m, q) == Some(k),
{
    let c = choose|k: Seq<u32>| is_next_key(m, q, k);
    assert(is_next_key(m, q, c));
    if c != k {
        assert(oid_lt(k, c) && oid_lt(c, k));
        lemma_oid_lt_transitive(k, c, k);
        lemma_oid_lt_irreflexive(k);
    }
}

/// `mk` is in `d`, after `q`, and no member of `d` after `q` comes before it.
pub open spec fn is_least_after(d: Set<Seq<u32>>, q: Seq<u32>, mk: Seq<u32>) -> bool {
    &&& d.contains(mk)
    &&& oid_lt(q, mk)
    &&& forall|k2: Seq<u32>| #[trigger] d.contains(k2) && oid_lt(q, k2) ==> mk == k2 || oid_lt(mk, k2)
}

/// A finite set with a member after `q` has a least member after `q`.
pub proof fn lemma_least_after_exists(d: Set<Seq<u32>>, q: Seq<u32>, k: Seq<u32>)
    requires
        d.finite(),
        d.contains(k),
        oid_lt(q, k),
    ensures
        exists|mk: Seq<u32>| is_least_after(d, q, mk),
    decreases d.len(),
{
    let d2 = d.remove(k);
    if exists|k2: Seq<u32>| d2.contains(k2) && oid_lt(q, k2) {
        let k2 = choose|k2: Seq<u32>| d2.contains(k2) && oid_lt(q, k2);
        lemma_least_after_exists(d2, q, k2);
        let m2 = choose|mk: Seq<u32>| is_least_after(d2, q, mk);
        lemma_oid_lt_total(k, m2);
        if oid_lt(k, m2) {
            assert forall|k3: Seq<u32>| #[trigger] d.contains(k3) && oid_lt(q, k3) implies k == k3
                || oid_lt(k, k3) by {
                if k3 != k {
                    assert(d2.contains(k3));
                    if m2 != k3 {
                        lemma_oid_lt_transitive(k, m2, k3);
                    }
                }
            }
            assert(is_least_after(d, q, k));
        } else {
            assert forall|k3: Seq<u32>| #[trigger] d.contains(k3) && oid_lt(q, k3) implies m2 == k3
                || oid_lt(m2, k3) by {
                if k3 != k {
                    assert(d2.contains(k3));
                }
            }
            assert(is_least_after(d, q, m2));
        }
    } else {
        assert forall|k3: Seq<u32>| #[trigger] d.contains(k3) && oid_lt(q, k3) implies k == k3
            || oid_lt(k, k3) by {
            if k3 != k {
                assert(d2.contains(k3));
            }
        }
        assert(is_least_after(d, q, k));
    }
}

/// In a finite map, a key after `q` means there is a least key after `q`.
pub proof fn lemma_next_key_exists(m: Map<Seq<u32>, ValueModel>, q: Seq<u32>, k: Seq<u32>)
    requires
        m.dom().finite(),
        m.contains_key(k),
        oid_lt(q, k),
    ensures
        next_key(m, q) is Some,
        is_next_key(m, q, next_key(m, q)->Some_0),
{
    lemma_least_after_exists(m.dom(), q, k);
    let mk = choose|mk: Seq<u32>| is_least_after(m.dom(), q, mk);
    assert(is_next_key(m, q, mk));
    lemma_next_key_unique(m, q, mk);
}

/// The map that entries with distinct keys stand for.
pub open spec fn entries_map(s: Seq<VarbindModel>) -> Map<Seq<u32>, ValueModel> {
    Map::new(
        |k: Seq<u32>| exists|i: int| 0 <= i < s.len() && s[i].oid == k,
        |k: Seq<u32>| s[choose|i: int| 0 <= i < s.len() && s[i].oid == k].value,
    )
}

pub open spec fn keys_unique(s: Seq<VarbindModel>) -> bool {
    forall|i: int, j: int|
        0 <= i < s.len() && 0 <= j < s.len() && i != j ==> #[trigger] s[i].oid != #[trigger] s[j].oid
}

pub proof fn lemma_entries_lookup(s: Seq<VarbindModel>, i: int)
    requires
        keys_unique(s),
        0 <= i < s.len(),
    ensures
        entries_map(s).contains_key(s[i].oid),
        entries_map(s)[s[i].oid] == s[i].value,
{
    let k = s[i].oid;
    assert(exists|j: int| 0 <= j < s.len() && s[j].oid == k);
    let j = choose|j: int| 0 <= j < s.len() && s[j].oid == k;
    assert(j == i);
}

/// The store: entries with distinct keys, every key and every OID value valid.
pub struct MibStore {
    entries: Vec<Varbind>,
}

/// Whether two slices hold the same elements, for an element type whose
/// `==` is equality.
pub fn slices_eq<T: PartialEq>(a: &[T], b: &[T]) -> (r: bool)
    requires
        <T as PartialEqSpec>::obeys_eq_spec(),
        forall|x: T, y: T| #[trigger] x.eq_spec(&y) <==> x == y,
    ensures
        r == (a@ == b@),
{
    if a.len() != b.len() {
        return false;
    }
    let mut i: usize = 0;
    while i < a.len()
        invariant
            i <= a.len() == b.len(),
            <T as PartialEqSpec>::obeys_eq_spec(),
            forall|x: T, y: T| #[trigger] x.eq_spec(&y) <==> x == y,
            a@.take(i as int) == b@.take(i as int),
        decreases a.len() - i,
    {
        if a[i] != b[i] {
            assert(a@[i as int] != b@[i as int]);
            return false;
        }
        assert(a@.take(i + 1) =~= a@.take(i as int).push(a@[i as int]));
        assert(b@.take(i + 1) =~= b@.take(i as int).push(b@[i as int]));
        i += 1;
    }
    assert(a@.take(a.len() as int) =~= a@);
    assert(b@.take(b.len() as int) =~= b@);
    true
}

/// Whether `a` comes strictly before `b` in lexicographic order.
pub fn oid_less(a: &[u32], b: &[u32]) -> (r: bool)
    ensures
        r == oid_lt(a@, b@),
{
    let mut i: usize = 0;
    assert(a@.skip(0) =~= a@);
    assert(b@.skip(0) =~= b@);
    loop
        invariant
            i <= a.len(),
            i <= b.len(),
            oid_lt(a@, b@) == oid_lt(a@.skip(i as int), b@.skip(i as int)),
        decreases a.len() - i,
    {
        if i == b.len() {
            return false;
        }
        if i == a.len() {
            return true;
        }
        if a[i] != b[i] {
            return a[i] < b[i];
        }
        assert(a@.skip(i as int).drop_first() =~= a@.skip(i + 1));
        assert(b@.skip(i as int).drop_first() =~= b@.skip(i + 1));
        i += 1;
    }
}

/// Every key of `m` is a valid OID and every OID value in it is valid.
pub open spec fn store_valid(m: Map<Seq<u32>, ValueModel>) -> bool {
    forall|k: Seq<u32>| #[trigger] m.contains_key(k) ==> oid_valid(k) && value_valid(m[k])
}

impl MibStore {
    /// The store holds finitely many keys.
    pub proof fn lemma_finite(&self)
        requires
            self.wf(),
        ensures
            self@.dom().finite(),
    {
        let s = varbinds_view(self.entries@);
        let keys = s.map_values(|b: VarbindModel| b.oid);
        seq_to_set_is_finite(keys);
        assert forall|k: Seq<u32>| #[trigger] self@.dom().contains(k) == keys.to_set().contains(k) by {
            if self@.dom().contains(k) {
                let j = choose|j: int| 0 <= j < s.len() && s[j].oid == k;
                assert(keys[j] == k);
            }
            if keys.to_set().contains(k) {
                let j = choose|j: int| 0 <= j < keys.len() && keys[j] == k;
                assert(s[j].oid == k);
            }
        }
        assert(self@.dom() =~= keys.to_set());
    }

    pub proof fn lemma_valid(&self)
        requires
            self.wf(),
        ensures
            store_valid(self@),
    {
        let s = varbinds_view(self.entries@);
        assert forall|k: Seq<u32>| #[trigger] self@.contains_key(k) implies oid_valid(k)
            && value_valid(self@[k]) by {
            let j = choose|j: int| 0 <= j < s.len() && s[j].oid == k;
            lemma_entries_lookup(s, j);
            assert(varbind_valid(self.entries@[j]@));
        }
    }

    /// The keys are distinct and every OID in the store is valid.
    pub closed spec fn wf(&self) -> bool {
        &&& keys_unique(varbinds_view(self.entries@))
        &&& forall|i: int|
            0 <= i < self.entries@.len() ==> #[trigger] varbind_valid(self.entries@[i]@)
    }

    pub closed spec fn view(&self) -> Map<Seq<u32>, ValueModel> {
        entries_map(varbinds_view(self.entries@))
    }

    /// An empty store.
    pub fn new() -> (r: MibStore)
        ensures
            r.wf(),
            r@ == Map::<Seq<u32>, ValueModel>::empty(),
    {
        let r = MibStore { entries: Vec::new() };
        assert(r@ =~= Map::<Seq<u32>, ValueModel>::empty());
        r
    }

    /// The position of `oid` among the entries, if it is a key.
    fn find(&self, oid: &[u32]) -> (r: Option<usize>)
        requires
            self.wf(),
        ensures
            match r {
                Some(i) => i < self.entries@.len() && self.entries@[i as int].oid@ == oid@,
                None => !self@.contains_key(oid@),
            },
    {
        let mut i: usize = 0;
        while i < self.entries.len()
            invariant
                i <= self.entries@.len(),
                forall|j: int| 0 <= j < i ==> self.entries@[j].oid@ != oid@,
            decreases self.entries.len() - i,
        {
            if slices_eq(self.entries[i].oid.as_slice(), oid) {
                return Some(i);
            }
            i += 1;
        }
        proof {
            let s = varbinds_view(self.entries@);
            if self@.contains_key(oid@) {
                let j = choose|j: int| 0 <= j < s.len() && s[j].oid == oid@;
                assert(self.entries@[j].oid@ == oid@);
            }
        }
        None
    }

    /// The value stored under `oid`, if any.
    pub fn get(&self, oid: &[u32]) -> (r: Option<&SnmpValue>)
        requires
            self.wf(),
        ensures
            match r {
                Some(v) => self@.contains_key(oid@) && v@ == self@[oid@],
                None => !self@.contains_key(oid@),
            },
    {
        match self.find(oid) {
            Some(i) => {
                proof {
                    lemma_entries_lookup(varbinds_view(self.entries@), i as int);
                }
                Some(&self.entries[i].value)
            },
            None => None,
        }
    }

    /// The entry with the least key strictly after `oid`, if any.
    pub fn get_next(&self, oid: &[u32]) -> (r: Option<&Varbind>)
        requires
            self.wf(),
        ensures
            match r {
                Some(e) => next_key(self@, oid@) == Some(e.oid@) && self@[e.oid@] == e.value@
                    && oid_valid(e.oid@) && varbind_valid(e@),
                None => next_key(self@, oid@) is None,
            },
    {
        let ghost s = varbinds_view(self.entries@);
        let mut best: Option<usize> = None;
        let mut i: usize = 0;
        while i < self.entries.len()
            invariant
                i <= self.entries@.len(),
                s == varbinds_view(self.entries@),
                match best {
                    Some(b) => b < i && oid_lt(oid@, s[b as int].oid) && forall|j: int|
                        0 <= j < i && oid_lt(oid@, #[trigger] s[j].oid) ==> s[b as int].oid
                            == s[j].oid || oid_lt(s[b as int].oid, s[j].oid),
                    None => forall|j: int| 0 <= j < i ==> !oid_lt(oid@, #[trigger] s[j].oid),
                },
            decreases self.entries.len() - i,
        {
            let k = self.entries[i].oid.as_slice();
            assert(k@ == s[i as int].oid);
            if oid_less(oid, k) {
                match best {
                    None => {
                        best = Some(i);
                    },
                    Some(b) => {
                        if oid_less(k, self.entries[b].oid.as_slice()) {
                            proof {
                                assert forall|j: int|
                                    0 <= j < i + 1 && oid_lt(oid@, #[trigger] s[j].oid) implies s[i as int].oid
                                    == s[j].oid || oid_lt(s[i as int].oid, s[j].oid) by {
                                    if j < i && s[b as int].oid != s[j].oid {
                                        lemma_oid_lt_transitive(
                                            s[i as int].oid,
                                            s[b as int].oid,
                                            s[j].oid,
                                        );
                                    }
                                }
                            }
                            best = Some(i);
                        } else {
                            proof {
                                lemma_oid_lt_total(s[i as int].oid, s[b as int].oid);
                            }
                        }
                    },
                }
            }
            i += 1;
        }
        match best {
            Some(b) => {
                proof {
                    lemma_entries_lookup(s, b as int);
                    let m = self@;
                    let kb = s[b as int].oid;
                    assert forall|k2: Seq<u32>| #[trigger] m.contains_key(k2) && oid_lt(oid@, k2) implies kb
                        == k2 || oid_lt(kb, k2) by {
                        let j = choose|j: int| 0 <= j < s.len() && s[j].oid == k2;
                        assert(oid_lt(oid@, s[j].oid));
                    }
                    assert(is_next_key(m, oid@, kb));
                    lemma_next_key_unique(m, oid@, kb);
                    assert(varbind_valid(self.entries@[b as int]@));
                }
                Some(&self.entries[b])
            },
            None => {
                proof {
                    let m = self@;
                    if exists|k: Seq<u32>| is_next_key(m, oid@, k) {
                        let k = choose|k: Seq<u32>| is_next_key(m, oid@, k);
                        let j = choose|j: int| 0 <= j < s.len() && s[j].oid == k;
                        assert(!oid_lt(oid@, s[j].oid));
                    }
                }
                None
            },
        }
    }

    /// Stores `value` under `oid`, replacing what was there.
    pub fn insert(&mut self, oid: Vec<u32>, value: SnmpValue)
        requires
            old(self).wf(),
            oid_valid(oid@),
            varbind_valid(VarbindModel { oid: oid@, value: value@ }),
        ensures
            final(self).wf(),
            final(self)@ == old(self)@.insert(oid@, value@),
    {
        let ghost s0 = varbinds_view(self.entries@);
        let ghost k = oid@;
        let ghost v = value@;
        let entry = Varbind { oid, value };
        match self.find(entry.oid.as_slice()) {
            Some(i) => {
                self.entries.set(i, entry);
                proof {
                    let s1 = varbinds_view(self.entries@);
                    assert(s1 =~= s0.update(i as int, VarbindModel { oid: k, value: v }));
                    assert forall|a: int, b: int|
                        0 <= a < s1.len() && 0 <= b < s1.len() && a != b implies #[trigger] s1[a].oid
                        != #[trigger] s1[b].oid by {
                        assert(s0[a].oid != s0[b].oid);
                    }
                    assert forall|j: int| 0 <= j < self.entries@.len() implies #[trigger] varbind_valid(
                        self.entries@[j]@,
                    ) by {
                        if j != i {
                            assert(varbind_valid(old(self).entries@[j]@));
                        }
                    }
                    let m0 = entries_map(s0);
                    let m1 = entries_map(s1);
                    assert forall|key: Seq<u32>| #[trigger] m1.contains_key(key) == m0.insert(
                        k,
                        v,
                    ).contains_key(key) by {
                        if m0.contains_key(key) {
                            let j = choose|j: int| 0 <= j < s0.len() && s0[j].oid == key;
                            assert(s1[j].oid == key);
                        }
                        if key == k {
                            assert(s1[i as int].oid == key);
                        }
                        if m1.contains_key(key) {
                            let j = choose|j: int| 0 <= j < s1.len() && s1[j].oid == key;
                            if j != i {
                                assert(s0[j].oid == key);
                            }
                        }
                    }
                    assert forall|key: Seq<u32>| #[trigger] m1.contains_key(key) implies m1[key]
                        == m0.insert(k, v)[key] by {
                        let j = choose|j: int| 0 <= j < s1.len() && s1[j].oid == key;
                        lemma_entries_lookup(s1, j);
                        if j != i {
                            lemma_entries_lookup(s0, j);
                            assert(s0[j].oid != s0[i as int].oid);
                        }
                    }
                    assert(m1 =~= m0.insert(k, v));
                }
            },
            None => {
                self.entries.push(entry);
                proof {
                    let s1 = varbinds_view(self.entries@);
                    let n = s0.len() as int;
                    assert(s1 =~= s0.push(VarbindModel { oid: k, value: v }));
                    assert forall|a: int, b: int|
                        0 <= a < s1.len() && 0 <= b < s1.len() && a != b implies #[trigger] s1[a].oid
                        != #[trigger] s1[b].oid by {
                        if a < n && b < n {
                            assert(s0[a].oid != s0[b].oid);
                        } else if a < n {
                            assert(entries_map(s0).contains_key(s0[a].oid));
                        } else {
                            assert(entries_map(s0).contains_key(s0[b].oid));
                        }
                    }
                    assert forall|j: int| 0 <= j < self.entries@.len() implies #[trigger] varbind_valid(
                        self.entries@[j]@,
                    ) by {
                        if j < n {
                            assert(varbind_valid(old(self).entries@[j]@));
                        }
                    }
                    let m0 = entries_map(s0);
                    let m1 = entries_map(s1);
                    assert forall|key: Seq<u32>| #[trigger] m1.contains_key(key) == m0.insert(
                        k,
                        v,
                    ).contains_key(key) by {
                        if m0.contains_key(key) {
                            let j = choose|j: int| 0 <= j < s0.len() && s0[j].oid == key;
                            assert(s1[j].oid == key);
                        }
                        if key == k {
                            assert(s1[n].oid == key);
                        }
                        if m1.contains_key(key) {
                            let j = choose|j: int| 0 <= j < s1.len() && s1[j].oid == key;
                            if j != n {
                                assert(s0[j].oid == key);
                            }
                        }
                    }
                    assert forall|key: Seq<u32>| #[trigger] m1.contains_key(key) implies m1[key]
                        == m0.insert(k, v)[key] by {
                        let j = choose|j: int| 0 <= j < s1.len() && s1[j].oid == key;
                        lemma_entries_lookup(s1, j);
                        if j != n {
                            lemma_entries_lookup(s0, j);
                        }
                    }
                    assert(m1 =~= m0.insert(k, v));
                }
            },
        }
    }
}

} // verus!

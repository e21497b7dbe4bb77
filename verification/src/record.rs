//! ServiceRecord: the immutable description of one discovered service
//! instance (identity, selected address, port, attributes).
//!
//! Attribute keys are case-insensitive: on construction, duplicate keys that
//! differ only in ASCII case collapse to the first occurrence, and later
//! duplicates are silently ignored.

use vstd::prelude::*;

use crate::text::{ci_eq, eq_ignore_case, lower_seq};

verus! {

/// The mathematical content of a ServiceRecord.
pub struct RecordModel {
    pub identity: Seq<char>,
    pub address: Seq<char>,
    pub port: u16,
    pub attrs: Seq<(Seq<char>, Seq<char>)>,
}

/// Is some key of `s` the same attribute key as `key`, up to ASCII case?
pub open spec fn has_key_ci(s: Seq<(Seq<char>, Seq<char>)>, key: Seq<char>) -> bool {
    exists|i: int| 0 <= i < s.len() && ci_eq(s[i].0, key)
}

/// The set of folded forms of the keys of `s`.
pub open spec fn lowered_keys(s: Seq<(Seq<char>, Seq<char>)>) -> Set<Seq<char>> {
    Set::new(|lk: Seq<char>| exists|i: int| 0 <= i < s.len() && lower_seq(s[i].0) == lk)
}

/// First-occurrence-wins collapse of an attribute list, skipping any pair
/// whose folded key is already in `seen`.
pub open spec fn collapse_from(
    s: Seq<(Seq<char>, Seq<char>)>,
    seen: Set<Seq<char>>,
) -> Seq<(Seq<char>, Seq<char>)>
    decreases s.len(),
{
    if s.len() == 0 {
        Seq::empty()
    } else if seen.contains(lower_seq(s[0].0)) {
        collapse_from(s.skip(1), seen)
    } else {
        seq![s[0]] + collapse_from(s.skip(1), seen.insert(lower_seq(s[0].0)))
    }
}

/// First-occurrence-wins collapse of an attribute list: for each set of keys
/// equal up to ASCII case, the first pair stays and the rest are dropped.
pub open spec fn collapse(s: Seq<(Seq<char>, Seq<char>)>) -> Seq<(Seq<char>, Seq<char>)> {
    collapse_from(s, Set::empty())
}

/// The value of the first pair whose key matches `key` up to ASCII case.
pub open spec fn lookup_ci(s: Seq<(Seq<char>, Seq<char>)>, key: Seq<char>) -> Option<Seq<char>>
    decreases s.len(),
{
    if s.len() == 0 {
        None
    } else if ci_eq(s[0].0, key) {
        Some(s[0].1)
    } else {
        lookup_ci(s.skip(1), key)
    }
}

proof fn lemma_has_key_lowered(s: Seq<(Seq<char>, Seq<char>)>, key: Seq<char>)
    ensures
        has_key_ci(s, key) == lowered_keys(s).contains(lower_seq(key)),
{
    if has_key_ci(s, key) {
        let i = choose|i: int| 0 <= i < s.len() && ci_eq(s[i].0, key);
        assert(lower_seq(s[i].0) == lower_seq(key));
        assert(lowered_keys(s).contains(lower_seq(key)));
    }
    if lowered_keys(s).contains(lower_seq(key)) {
        let i = choose|i: int| 0 <= i < s.len() && lower_seq(s[i].0) == lower_seq(key);
        assert(ci_eq(s[i].0, key));
        assert(has_key_ci(s, key));
    }
}

proof fn lemma_lowered_keys_push(s: Seq<(Seq<char>, Seq<char>)>, p: (Seq<char>, Seq<char>))
    ensures
        lowered_keys(s.push(p)) =~= lowered_keys(s).insert(lower_seq(p.0)),
{
    let t = s.push(p);
    assert forall|lk: Seq<char>| lowered_keys(t).contains(lk) implies lowered_keys(s).insert(
        lower_seq(p.0),
    ).contains(lk) by {
        let i = choose|i: int| 0 <= i < t.len() && lower_seq(t[i].0) == lk;
        if i < s.len() {
            assert(s[i] == t[i]);
            assert(lowered_keys(s).contains(lk));
        } else {
            assert(t[i] == p);
        }
    }
    assert forall|lk: Seq<char>|
        lowered_keys(s).insert(lower_seq(p.0)).contains(lk) implies lowered_keys(t).contains(
        lk,
    ) by {
        if lowered_keys(s).contains(lk) {
            let i = choose|i: int| 0 <= i < s.len() && lower_seq(s[i].0) == lk;
            assert(t[i] == s[i]);
        } else {
            assert(lk == lower_seq(p.0));
            assert(t[s.len() as int] == p);
        }
    }
}

/// A query key may be written in any ASCII case: two keys that fold to the
/// same characters select the same attribute value.
pub proof fn lemma_attribute_query_case_insensitive(
    s: Seq<(Seq<char>, Seq<char>)>,
    k1: Seq<char>,
    k2: Seq<char>,
)
    requires
        ci_eq(k1, k2),
    ensures
        lookup_ci(s, k1) == lookup_ci(s, k2),
    decreases s.len(),
{
    if s.len() > 0 {
        assert(ci_eq(s[0].0, k1) == ci_eq(s[0].0, k2));
        lemma_attribute_query_case_insensitive(s.skip(1), k1, k2);
    }
}

proof fn lemma_lookup_collapse_from(
    s: Seq<(Seq<char>, Seq<char>)>,
    seen: Set<Seq<char>>,
    key: Seq<char>,
)
    ensures
        !seen.contains(lower_seq(key)) ==> lookup_ci(collapse_from(s, seen), key) == lookup_ci(
            s,
            key,
        ),
        seen.contains(lower_seq(key)) ==> lookup_ci(collapse_from(s, seen), key) is None,
    decreases s.len(),
{
    if s.len() == 0 {
    } else if seen.contains(lower_seq(s[0].0)) {
        lemma_lookup_collapse_from(s.skip(1), seen, key);
        if ci_eq(s[0].0, key) {
            assert(seen.contains(lower_seq(key)));
        }
    } else {
        let rest = collapse_from(s.skip(1), seen.insert(lower_seq(s[0].0)));
        let c = seq![s[0]] + rest;
        assert(c[0] == s[0]);
        assert(c.skip(1) =~= rest);
        lemma_lookup_collapse_from(s.skip(1), seen.insert(lower_seq(s[0].0)), key);
        if ci_eq(s[0].0, key) {
            assert(lookup_ci(c, key) == Some(s[0].1));
        } else {
            assert(lower_seq(key) != lower_seq(s[0].0));
        }
    }
}

/// Collapsing keeps exactly the first occurrence of each key: a lookup in the
/// collapsed list answers as a first-match lookup in the original list.
pub proof fn lemma_collapse_keeps_first(s: Seq<(Seq<char>, Seq<char>)>, key: Seq<char>)
    ensures
        lookup_ci(collapse(s), key) == lookup_ci(s, key),
{
    lemma_lookup_collapse_from(s, Set::empty(), key);
}

/// Is the key of some pair of `pairs` equal to `key` up to ASCII case?
pub fn contains_key_ci(pairs: &Vec<(String, String)>, key: &str) -> (r: bool)
    ensures
        r == has_key_ci(pairs.deep_view(), key@),
{
    let ghost dv = pairs.deep_view();
    let len = pairs.len();
    let mut i: usize = 0;
    while i < len
        invariant
            len == pairs@.len(),
            dv == pairs.deep_view(),
            i <= len,
            forall|j: int| 0 <= j < i ==> !ci_eq(dv[j].0, key@),
        decreases len - i,
    {
        assert(dv[i as int].0 == pairs@[i as int].0@);
        if eq_ignore_case(pairs[i].0.as_str(), key) {
            assert(has_key_ci(dv, key@));
            return true;
        }
        i = i + 1;
    }
    assert(!has_key_ci(dv, key@));
    false
}

/// First-occurrence-wins collapse, executable form.
fn collapse_attrs(attributes: Vec<(String, String)>) -> (r: Vec<(String, String)>)
    ensures
        r.deep_view() == collapse(attributes.deep_view()),
{
    let ghost dv = attributes.deep_view();
    let mut out: Vec<(String, String)> = Vec::new();
    let ghost mut seen: Set<Seq<char>> = Set::empty();
    let len = attributes.len();
    let mut i: usize = 0;
    proof {
        assert(dv.skip(0) =~= dv);
        assert(out.deep_view() =~= Seq::<(Seq<char>, Seq<char>)>::empty());
        assert(lowered_keys(out.deep_view()) =~= Set::<Seq<char>>::empty());
        assert(collapse(dv) =~= out.deep_view() + collapse_from(dv, Set::empty()));
    }
    while i < len
        invariant
            len == attributes@.len(),
            dv == attributes.deep_view(),
            i <= len,
            seen == lowered_keys(out.deep_view()),
            collapse(dv) == out.deep_view() + collapse_from(dv.skip(i as int), seen),
        decreases len - i,
    {
        let ghost out_dv = out.deep_view();
        let ghost tail = dv.skip(i as int);
        proof {
            assert(tail[0] == dv[i as int]);
            assert(tail.skip(1) =~= dv.skip(i + 1));
            assert(dv[i as int].0 == attributes@[i as int].0@);
            lemma_has_key_lowered(out_dv, attributes@[i as int].0@);
        }
        let pair = &attributes[i];
        if !contains_key_ci(&out, pair.0.as_str()) {
            let cloned = (pair.0.clone(), pair.1.clone());
            assert(cloned == attributes@[i as int]);
            out.push(cloned);
            proof {
                assert(out.deep_view() =~= out_dv.push(dv[i as int]));
                lemma_lowered_keys_push(out_dv, dv[i as int]);
                seen = seen.insert(lower_seq(dv[i as int].0));
                assert(collapse_from(tail, lowered_keys(out_dv)) == seq![dv[i as int]]
                    + collapse_from(dv.skip(i + 1), seen));
                assert(out_dv + (seq![dv[i as int]] + collapse_from(dv.skip(i + 1), seen))
                    =~= out.deep_view() + collapse_from(dv.skip(i + 1), seen));
            }
        } else {
            proof {
                assert(collapse_from(tail, seen) == collapse_from(dv.skip(i + 1), seen));
            }
        }
        i = i + 1;
    }
    proof {
        assert(dv.skip(len as int) =~= Seq::<(Seq<char>, Seq<char>)>::empty());
        assert(collapse(dv) =~= out.deep_view() + Seq::<(Seq<char>, Seq<char>)>::empty());
        assert(collapse(dv) =~= out.deep_view());
    }
    out
}

/// One discovered service instance.
pub struct ServiceRecord {
    identity: String,
    address: String,
    port: u16,
    attributes: Vec<(String, String)>,
}

impl View for ServiceRecord {
    type V = RecordModel;

    closed spec fn view(&self) -> RecordModel {
        RecordModel {
            identity: self.identity@,
            address: self.address@,
            port: self.port,
            attrs: self.attributes.deep_view(),
        }
    }
}

impl Clone for ServiceRecord {
    /// A clone is the same record, field for field.
    fn clone(&self) -> (r: Self)
        ensures
            r@ == self@,
    {
        let mut attrs: Vec<(String, String)> = Vec::new();
        let len = self.attributes.len();
        let mut i: usize = 0;
        while i < len
            invariant
                len == self.attributes@.len(),
                i <= len,
                attrs@ =~= self.attributes@.subrange(0, i as int),
            decreases len - i,
        {
            let p = &self.attributes[i];
            let c = (p.0.clone(), p.1.clone());
            assert(c == self.attributes@[i as int]);
            attrs.push(c);
            i = i + 1;
        }
        assert(attrs@ =~= self.attributes@);
        let r = ServiceRecord {
            identity: self.identity.clone(),
            address: self.address.clone(),
            port: self.port,
            attributes: attrs,
        };
        assert(r.attributes.deep_view() =~= self.attributes.deep_view());
        r
    }
}

impl ServiceRecord {
    /// Builds a record; duplicate attribute keys (up to ASCII case) resolve
    /// to the first occurrence, later duplicates are silently ignored.
    pub fn new(identity: String, address: String, port: u16, attributes: Vec<(String, String)>)
        -> (r: Self)
        ensures
            r@.identity == identity@,
            r@.address == address@,
            r@.port == port,
            r@.attrs == collapse(attributes.deep_view()),
    {
        let attrs = collapse_attrs(attributes);
        ServiceRecord { identity, address, port, attributes: attrs }
    }

    /// Builds a record from a resolve notification: the first protocol-reported
    /// address is selected; with no address at all, no record can be made.
    pub fn from_resolved(
        identity: String,
        addresses: Vec<String>,
        port: u16,
        attributes: Vec<(String, String)>,
    ) -> (r: Option<Self>)
        ensures
            r is Some <==> addresses@.len() > 0,
            r is Some ==> {
                &&& r->0@.identity == identity@
                &&& r->0@.address == addresses@[0]@
                &&& r->0@.port == port
                &&& r->0@.attrs == collapse(attributes.deep_view())
            },
    {
        if addresses.len() == 0 {
            return None;
        }
        let first = addresses[0].clone();
        Some(Self::new(identity, first, port, attributes))
    }

    /// The instance's unique key.
    pub fn identity(&self) -> (r: &String)
        ensures
            r@ == self@.identity,
    {
        &self.identity
    }

    /// The selected network address.
    pub fn address(&self) -> (r: &String)
        ensures
            r@ == self@.address,
    {
        &self.address
    }

    /// The transport port.
    pub fn port(&self) -> (r: u16)
        ensures
            r == self@.port,
    {
        self.port
    }

    /// The value stored under `key`, queried without regard to ASCII case.
    pub fn get_attribute(&self, key: &str) -> (r: Option<String>)
        ensures
            r is Some <==> lookup_ci(self@.attrs, key@) is Some,
            r is Some ==> r->0@ == lookup_ci(self@.attrs, key@)->0,
    {
        let ghost dv = self.attributes.deep_view();
        let len = self.attributes.len();
        let mut i: usize = 0;
        proof {
            assert(dv.skip(0) =~= dv);
        }
        while i < len
            invariant
                len == self.attributes@.len(),
                dv == self.attributes.deep_view(),
                i <= len,
                lookup_ci(dv, key@) == lookup_ci(dv.skip(i as int), key@),
            decreases len - i,
        {
            let ghost tail = dv.skip(i as int);
            proof {
                assert(tail[0] == dv[i as int]);
                assert(tail.skip(1) =~= dv.skip(i + 1));
                assert(dv[i as int].0 == self.attributes@[i as int].0@);
                assert(dv[i as int].1 == self.attributes@[i as int].1@);
            }
            let p = &self.attributes[i];
            if eq_ignore_case(p.0.as_str(), key) {
                return Some(p.1.clone());
            }
            i = i + 1;
        }
        proof {
            assert(dv.skip(len as int) =~= Seq::<(Seq<char>, Seq<char>)>::empty());
        }
        None
    }
}

} // verus!

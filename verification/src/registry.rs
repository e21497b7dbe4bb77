//! Registry: the authoritative mapping from instance identity to
//! ServiceRecord, updated by discovery events. Abstractly it is a map from
//! identity to record content; no ordering is guaranteed.

use vstd::prelude::*;

use crate::record::{RecordModel, ServiceRecord};

verus! {

/// The record contents of a sequence of records.
pub open spec fn models(s: Seq<ServiceRecord>) -> Seq<RecordModel> {
    s.map_values(|r: ServiceRecord| r@)
}

/// No two entries share an identity.
pub open spec fn unique_ids(s: Seq<RecordModel>) -> bool {
    forall|i: int, j: int|
        0 <= i < j < s.len() ==> (#[trigger] s[i]).identity != (#[trigger] s[j]).identity
}

/// The set of identities of a sequence of record contents.
pub open spec fn id_set(s: Seq<RecordModel>) -> Set<Seq<char>> {
    Set::new(|id: Seq<char>| exists|i: int| 0 <= i < s.len() && s[i].identity == id)
}

/// The mapping from identity to record content held by a sequence of records.
pub open spec fn map_of(s: Seq<RecordModel>) -> Map<Seq<char>, RecordModel>
    decreases s.len(),
{
    if s.len() == 0 {
        Map::empty()
    } else {
        map_of(s.drop_last()).insert(s.last().identity, s.last())
    }
}

proof fn lemma_id_set_push(s: Seq<RecordModel>, m: RecordModel)
    ensures
        id_set(s.push(m)) =~= id_set(s).insert(m.identity),
{
    let t = s.push(m);
    assert forall|id: Seq<char>| id_set(t).contains(id) implies id_set(s).insert(
        m.identity,
    ).contains(id) by {
        let i = choose|i: int| 0 <= i < t.len() && t[i].identity == id;
        if i < s.len() {
            assert(s[i] == t[i]);
            assert(id_set(s).contains(id));
        } else {
            assert(t[i] == m);
        }
    }
    assert forall|id: Seq<char>| id_set(s).insert(m.identity).contains(id) implies id_set(
        t,
    ).contains(id) by {
        if id_set(s).contains(id) {
            let i = choose|i: int| 0 <= i < s.len() && s[i].identity == id;
            assert(t[i] == s[i]);
        } else {
            assert(t[s.len() as int] == m);
        }
    }
}

/// The domain of the held mapping is exactly the set of entry identities.
pub proof fn lemma_map_of_dom(s: Seq<RecordModel>)
    ensures
        map_of(s).dom() == id_set(s),
    decreases s.len(),
{
    if s.len() == 0 {
        assert forall|id: Seq<char>| !id_set(s).contains(id) by {}
        assert(map_of(s).dom() =~= id_set(s));
    } else {
        let dl = s.drop_last();
        lemma_map_of_dom(dl);
        lemma_id_set_push(dl, s.last());
        assert(dl.push(s.last()) =~= s);
        assert(map_of(s).dom() =~= id_set(s));
    }
}

/// A prefix of a sequence with unique identities again has unique identities.
proof fn lemma_unique_drop_last(s: Seq<RecordModel>)
    requires
        unique_ids(s),
        s.len() > 0,
    ensures
        unique_ids(s.drop_last()),
{
    assert forall|i: int, j: int|
        0 <= i < j < s.drop_last().len() implies (#[trigger] s.drop_last()[i]).identity != (
    #[trigger] s.drop_last()[j]).identity by {
        assert(s.drop_last()[i] == s[i]);
        assert(s.drop_last()[j] == s[j]);
    }
}

/// With unique identities, each entry is what the mapping holds for its identity.
pub proof fn lemma_map_of_get(s: Seq<RecordModel>, i: int)
    requires
        unique_ids(s),
        0 <= i < s.len(),
    ensures
        map_of(s).dom().contains(s[i].identity),
        map_of(s)[s[i].identity] == s[i],
    decreases s.len(),
{
    let dl = s.drop_last();
    if i == s.len() - 1 {
        assert(s[i] == s.last());
    } else {
        lemma_unique_drop_last(s);
        lemma_map_of_get(dl, i);
        assert(dl[i] == s[i]);
        assert(s[i].identity != s.last().identity);
    }
}

/// With unique identities, the mapping has exactly one key per entry.
pub proof fn lemma_map_of_card(s: Seq<RecordModel>)
    requires
        unique_ids(s),
    ensures
        map_of(s).dom().finite(),
        map_of(s).dom().len() == s.len(),
    decreases s.len(),
{
    if s.len() == 0 {
        assert(map_of(s).dom() =~= Set::<Seq<char>>::empty());
    } else {
        let dl = s.drop_last();
        lemma_unique_drop_last(s);
        lemma_map_of_card(dl);
        lemma_map_of_dom(dl);
        assert(!id_set(dl).contains(s.last().identity)) by {
            if id_set(dl).contains(s.last().identity) {
                let j = choose|j: int| 0 <= j < dl.len() && dl[j].identity == s.last().identity;
                assert(s[j] == dl[j]);
            }
        }
        assert(map_of(s).dom() =~= map_of(dl).dom().insert(s.last().identity));
    }
}

/// Removing one entry removes exactly its identity from the held mapping.
proof fn lemma_map_of_remove(s: Seq<RecordModel>, i: int)
    requires
        unique_ids(s),
        0 <= i < s.len(),
    ensures
        map_of(s.remove(i)) == map_of(s).remove(s[i].identity),
        unique_ids(s.remove(i)),
    decreases s.len(),
{
    let r = s.remove(i);
    s.remove_ensures(i);
    assert forall|a: int, b: int|
        0 <= a < b < r.len() implies (#[trigger] r[a]).identity != (#[trigger] r[b]).identity by {
        let sa: int = if a < i {
            a
        } else {
            a + 1
        };
        let sb: int = if b < i {
            b
        } else {
            b + 1
        };
        assert(r[a] == s[sa]);
        assert(r[b] == s[sb]);
    }
    let dl = s.drop_last();
    lemma_map_of_dom(dl);
    if i == s.len() - 1 {
        assert(r =~= dl);
        assert(!id_set(dl).contains(s.last().identity)) by {
            if id_set(dl).contains(s.last().identity) {
                let j = choose|j: int| 0 <= j < dl.len() && dl[j].identity == s.last().identity;
                assert(s[j] == dl[j]);
            }
        }
        assert(map_of(s).remove(s[i].identity) =~= map_of(dl));
    } else {
        lemma_unique_drop_last(s);
        lemma_map_of_remove(dl, i);
        assert(r.last() == s.last());
        assert(r.drop_last() =~= dl.remove(i)) by {
            dl.remove_ensures(i);
            assert forall|k: int| 0 <= k < r.drop_last().len() implies r.drop_last()[k]
                == dl.remove(i)[k] by {
                assert(r.drop_last()[k] == r[k]);
                if k < i {
                    assert(r[k] == s[k]);
                    assert(dl.remove(i)[k] == dl[k]);
                    assert(dl[k] == s[k]);
                } else {
                    assert(r[k] == s[k + 1]);
                    assert(dl.remove(i)[k] == dl[k + 1]);
                    assert(dl[k + 1] == s[k + 1]);
                }
            }
        }
        assert(map_of(r) == map_of(dl.remove(i)).insert(s.last().identity, s.last()));
        assert(s[i].identity != s.last().identity);
        assert(map_of(dl).remove(s[i].identity).insert(s.last().identity, s.last())
            =~= map_of(dl).insert(s.last().identity, s.last()).remove(s[i].identity));
        assert(dl[i] == s[i]);
    }
}

/// The live registry of discovered instances, keyed by identity.
pub struct Registry {
    entries: Vec<ServiceRecord>,
}

impl View for Registry {
    type V = Map<Seq<char>, RecordModel>;

    closed spec fn view(&self) -> Map<Seq<char>, RecordModel> {
        map_of(models(self.entries@))
    }
}

impl Clone for Registry {
    /// A clone holds the same mapping.
    fn clone(&self) -> (r: Self)
        ensures
            r@ == self@,
    {
        proof {
            use_type_invariant(&*self);
        }
        let mut entries: Vec<ServiceRecord> = Vec::new();
        let len = self.entries.len();
        let mut i: usize = 0;
        while i < len
            invariant
                len == self.entries@.len(),
                i <= len,
                entries@.len() == i,
                forall|j: int| 0 <= j < i ==> entries@[j]@ == self.entries@[j]@,
            decreases len - i,
        {
            let c = self.entries[i].clone();
            entries.push(c);
            i = i + 1;
        }
        proof {
            assert forall|j: int| 0 <= j < len implies models(entries@)[j] == models(
                self.entries@,
            )[j] by {
                assert(models(entries@)[j] == entries@[j]@);
                assert(models(self.entries@)[j] == self.entries@[j]@);
            }
            assert(models(entries@) =~= models(self.entries@));
        }
        Registry { entries }
    }
}

/// The position of the entry with this identity, if one is there.
fn find_index(entries: &Vec<ServiceRecord>, identity: &String) -> (r: Option<usize>)
    ensures
        r is Some ==> 0 <= r->0 < entries@.len() && models(entries@)[r->0 as int].identity
            == identity@,
        r is None ==> forall|j: int|
            0 <= j < entries@.len() ==> models(entries@)[j].identity != identity@,
{
    let ghost ms = models(entries@);
    let len = entries.len();
    let mut idx: usize = 0;
    while idx < len
        invariant
            len == entries@.len(),
            ms == models(entries@),
            idx <= len,
            forall|j: int| 0 <= j < idx ==> ms[j].identity != identity@,
        decreases len - idx,
    {
        assert(ms[idx as int].identity == entries@[idx as int]@.identity);
        if entries[idx].identity().eq(identity) {
            return Some(idx);
        }
        idx = idx + 1;
    }
    None
}

impl Registry {
    #[verifier::type_invariant]
    spec fn wf(&self) -> bool {
        unique_ids(models(self.entries@))
    }

    /// A fresh, empty registry.
    pub fn new() -> (r: Self)
        ensures
            r@ == Map::<Seq<char>, RecordModel>::empty(),
    {
        let r = Registry { entries: Vec::new() };
        proof {
            assert(models(r.entries@) =~= Seq::<RecordModel>::empty());
        }
        r
    }

    /// Inserts or replaces the entry for the record's identity.
    pub fn insert(&mut self, rec: ServiceRecord)
        ensures
            final (self)@ == old(self)@.insert(rec@.identity, rec@),
    {
        let ghost old_map = self@;
        let id = rec.identity().clone();
        self.remove(&id);
        proof {
            use_type_invariant(&*self);
        }
        let mut entries: Vec<ServiceRecord> = Vec::new();
        std::mem::swap(&mut entries, &mut self.entries);
        let ghost ms = models(entries@);
        proof {
            lemma_map_of_dom(ms);
        }
        entries.push(rec);
        proof {
            assert(models(entries@) =~= ms.push(rec@));
            assert(ms.push(rec@).drop_last() =~= ms);
            assert(ms.push(rec@).last() == rec@);
            assert(map_of(ms.push(rec@)) == map_of(ms).insert(rec@.identity, rec@));
            assert(!map_of(ms).dom().contains(rec@.identity));
            assert forall|a: int, b: int|
                0 <= a < b < ms.push(rec@).len() implies (#[trigger] ms.push(rec@)[a]).identity
                != (#[trigger] ms.push(rec@)[b]).identity by {
                if b < ms.len() {
                    assert(ms.push(rec@)[a] == ms[a]);
                    assert(ms.push(rec@)[b] == ms[b]);
                } else {
                    assert(ms.push(rec@)[b] == rec@);
                    assert(ms.push(rec@)[a] == ms[a]);
                    if ms[a].identity == rec@.identity {
                        assert(id_set(ms).contains(rec@.identity));
                    }
                }
            }
        }
        self.entries = entries;
        proof {
            assert(self@ == map_of(ms).insert(rec@.identity, rec@));
            assert(self@ =~= old_map.insert(rec@.identity, rec@));
        }
    }

    /// Deletes the entry for `identity` if present; reports whether one was there.
    pub fn remove(&mut self, identity: &String) -> (removed: bool)
        ensures
            removed == old(self)@.dom().contains(identity@),
            final (self)@ == old(self)@.remove(identity@),
    {
        proof {
            use_type_invariant(&*self);
        }
        let mut entries: Vec<ServiceRecord> = Vec::new();
        std::mem::swap(&mut entries, &mut self.entries);
        let ghost ms = models(entries@);
        proof {
            lemma_map_of_dom(ms);
        }
        match find_index(&entries, identity) {
            Some(idx) => {
                proof {
                    lemma_map_of_remove(ms, idx as int);
                    assert(id_set(ms).contains(identity@));
                }
                entries.remove(idx);
                proof {
                    assert(models(entries@) =~= ms.remove(idx as int));
                }
                self.entries = entries;
                true
            },
            None => {
                proof {
                    assert(!id_set(ms).contains(identity@)) by {
                        if id_set(ms).contains(identity@) {
                            let j = choose|j: int|
                                0 <= j < ms.len() && ms[j].identity == identity@;
                            assert(ms[j].identity != identity@);
                        }
                    }
                    assert(map_of(ms).remove(identity@) =~= map_of(ms));
                }
                self.entries = entries;
                false
            },
        }
    }

    /// Is an instance with this identity currently live?
    pub fn contains(&self, identity: &String) -> (r: bool)
        ensures
            r == self@.dom().contains(identity@),
    {
        proof {
            use_type_invariant(&*self);
        }
        let ghost ms = models(self.entries@);
        proof {
            lemma_map_of_dom(ms);
        }
        match find_index(&self.entries, identity) {
            Some(idx) => {
                assert(id_set(ms).contains(identity@));
                true
            },
            None => {
                proof {
                    assert(!id_set(ms).contains(identity@)) by {
                        if id_set(ms).contains(identity@) {
                            let j = choose|j: int|
                                0 <= j < ms.len() && ms[j].identity == identity@;
                            assert(ms[j].identity != identity@);
                        }
                    }
                }
                false
            },
        }
    }

    /// The record held for this identity, if any.
    pub fn get(&self, identity: &String) -> (r: Option<&ServiceRecord>)
        ensures
            r is Some <==> self@.dom().contains(identity@),
            r is Some ==> r->0@ == self@[identity@],
    {
        proof {
            use_type_invariant(&*self);
        }
        let ghost ms = models(self.entries@);
        proof {
            lemma_map_of_dom(ms);
        }
        match find_index(&self.entries, identity) {
            Some(idx) => {
                proof {
                    lemma_map_of_get(ms, idx as int);
                    assert(id_set(ms).contains(identity@));
                }
                Some(&self.entries[idx])
            },
            None => {
                proof {
                    assert(!id_set(ms).contains(identity@)) by {
                        if id_set(ms).contains(identity@) {
                            let j = choose|j: int|
                                0 <= j < ms.len() && ms[j].identity == identity@;
                            assert(ms[j].identity != identity@);
                        }
                    }
                }
                None
            },
        }
    }

    /// How many instances are live.
    pub fn len(&self) -> (r: usize)
        ensures
            r == self@.dom().len(),
    {
        proof {
            use_type_invariant(&*self);
            lemma_map_of_card(models(self.entries@));
        }
        self.entries.len()
    }

    /// The records currently held, one per identity, in unspecified order.
    pub fn entries(&self) -> (r: &Vec<ServiceRecord>)
        ensures
            map_of(models(r@)) == self@,
            unique_ids(models(r@)),
    {
        proof {
            use_type_invariant(&*self);
        }
        &self.entries
    }
}

} // verus!

//! The name/id registry.
//!
//! Every resource gets a stable 64-bit identity derived by hashing its
//! name, and the registry keeps the bidirectional association between
//! names and identities: a forward table from name to id and a reverse
//! table from id to name, both updated on every insertion.

use vstd::prelude::*;

use crate::assoc::{assoc_map, distinct_keys, lemma_assoc_update};

verus! {

/// The identity a name hashes to: a function of the name alone, stable
/// across runs as long as the name is unchanged.
pub uninterp spec fn id_of_name(name: Seq<char>) -> u64;

/// Relies on `xxhash_rust::xxh3::xxh3_64`: the digest depends on the
/// name's bytes alone, so equal names always receive equal identities.
#[verifier::external_body]
pub fn hash_name(name: &str) -> (id: u64)
    ensures
        id == id_of_name(name@),
{
    xxhash_rust::xxh3::xxh3_64(name.as_bytes())
}

/// The forward table seen at the spec level.
pub open spec fn name_pairs(s: Seq<(String, u64)>) -> Seq<(Seq<char>, u64)> {
    s.map_values(|p: (String, u64)| (p.0@, p.1))
}

/// The reverse table seen at the spec level.
pub open spec fn id_pairs(s: Seq<(u64, String)>) -> Seq<(u64, Seq<char>)> {
    s.map_values(|p: (u64, String)| (p.0, p.1@))
}

/// A bidirectional name/id association.  Each direction is a map in its
/// own right; an insertion updates both, with the latest write winning.
#[derive(Debug)]
pub struct ResourceIdMap {
    forward: Vec<(String, u64)>,
    reverse: Vec<(u64, String)>,
}

impl ResourceIdMap {
    /// The name-to-id direction.
    pub closed spec fn forward_map(self) -> Map<Seq<char>, u64> {
        assoc_map(name_pairs(self.forward@))
    }

    /// The id-to-name direction.
    pub closed spec fn reverse_map(self) -> Map<u64, Seq<char>> {
        assoc_map(id_pairs(self.reverse@))
    }

    /// Both tables hold each key at most once.
    pub closed spec fn wf(self) -> bool {
        distinct_keys(name_pairs(self.forward@)) && distinct_keys(id_pairs(self.reverse@))
    }

    /// An empty registry.
    pub fn new() -> (r: ResourceIdMap)
        ensures
            r.wf(),
            r.forward_map() == Map::<Seq<char>, u64>::empty(),
            r.reverse_map() == Map::<u64, Seq<char>>::empty(),
    {
        ResourceIdMap { forward: Vec::new(), reverse: Vec::new() }
    }

    /// Records the association in both directions; an existing entry
    /// under the same name or the same id is overwritten.
    pub fn insert_resource(&mut self, resource_name: String, resource_id: u64)
        requires
            old(self).wf(),
        ensures
            final(self).wf(),
            final(self).forward_map() == old(self).forward_map().insert(
                resource_name@,
                resource_id,
            ),
            final(self).reverse_map() == old(self).reverse_map().insert(
                resource_id,
                resource_name@,
            ),
    {
        let reverse_name = resource_name.clone();
        upsert_name(&mut self.forward, resource_name, resource_id);
        upsert_id(&mut self.reverse, resource_id, reverse_name);
    }

    /// The registered names, one per forward entry, in table order.
    pub fn names(&self) -> (r: Vec<String>)
        requires
            self.wf(),
        ensures
            r@.len() == self.forward_map().dom().len(),
            forall|i: int, j: int| 0 <= i < j < r@.len() ==> (#[trigger] r@[i])@ != (
            #[trigger] r@[j])@,
            forall|i: int| 0 <= i < r@.len() ==> self.forward_map().dom().contains(
                (#[trigger] r@[i])@,
            ),
            forall|n: Seq<char>| self.forward_map().dom().contains(n) ==> exists|i: int|
                0 <= i < r@.len() && (#[trigger] r@[i])@ == n,
    {
        let n = self.forward.len();
        let mut out: Vec<String> = Vec::new();
        let mut i: usize = 0;
        while i < n
            invariant
                i <= n,
                n == self.forward@.len(),
                self.wf(),
                out@.len() == i,
                forall|k: int| 0 <= k < i ==> (#[trigger] out@[k])@ == self.forward@[k].0@,
            decreases n - i,
        {
            out.push(self.forward[i].0.clone());
            i += 1;
        }
        proof {
            crate::assoc::lemma_assoc_len(name_pairs(self.forward@));
            assert forall|a: int, b: int| 0 <= a < b < out@.len() implies (#[trigger] out@[a])@
                != (#[trigger] out@[b])@ by {
                assert(name_pairs(self.forward@)[a].0 != name_pairs(self.forward@)[b].0);
            }
            assert forall|i2: int| 0 <= i2 < out@.len() implies self.forward_map().dom().contains(
                (#[trigger] out@[i2])@,
            ) by {
                crate::assoc::lemma_assoc_get(name_pairs(self.forward@), i2);
            }
            assert forall|nm: Seq<char>| self.forward_map().dom().contains(nm) implies exists|
                i2: int,
            | 0 <= i2 < out@.len() && (#[trigger] out@[i2])@ == nm by {
                crate::assoc::lemma_assoc_contains(name_pairs(self.forward@), nm);
                let i2 = choose|i2: int|
                    0 <= i2 < name_pairs(self.forward@).len() && name_pairs(self.forward@)[i2].0
                        == nm;
                assert((out@[i2])@ == nm);
            }
        }
        out
    }
}

/// Inserts or replaces the entry for `name` in the forward table.
fn upsert_name(v: &mut Vec<(String, u64)>, name: String, id: u64)
    requires
        distinct_keys(name_pairs(old(v)@)),
    ensures
        distinct_keys(name_pairs(final(v)@)),
        assoc_map(name_pairs(final(v)@)) == assoc_map(name_pairs(old(v)@)).insert(name@, id),
{
    let n = v.len();
    let mut i: usize = 0;
    while i < n
        invariant
            i <= n,
            n == v@.len(),
            v@ == old(v)@,
            distinct_keys(name_pairs(v@)),
            forall|k: int| 0 <= k < i ==> (#[trigger] v@[k]).0@ != name@,
        decreases n - i,
    {
        if v[i].0 == name {
            let ghost pre = v@;
            v.set(i, (name, id));
            proof {
                assert(name_pairs(v@) =~= name_pairs(pre).update(i as int, (name@, id)));
                lemma_assoc_update(name_pairs(pre), i as int, (name@, id));
            }
            return;
        }
        i += 1;
    }
    let ghost pre = v@;
    v.push((name, id));
    proof {
        assert(name_pairs(v@).drop_last() =~= name_pairs(pre));
        assert(name_pairs(v@).last() == (name@, id));
        assert forall|a: int, b: int| 0 <= a < b < name_pairs(v@).len() implies (
            #[trigger] name_pairs(v@)[a]).0 != (#[trigger] name_pairs(v@)[b]).0 by {
            if b < pre.len() {
                assert(name_pairs(pre)[a].0 != name_pairs(pre)[b].0);
            } else {
                assert(name_pairs(v@)[b].0 == name@);
                assert(v@[a].0@ != name@);
            }
        }
    }
}

/// Inserts or replaces the entry for `id` in the reverse table.
fn upsert_id(v: &mut Vec<(u64, String)>, id: u64, name: String)
    requires
        distinct_keys(id_pairs(old(v)@)),
    ensures
        distinct_keys(id_pairs(final(v)@)),
        assoc_map(id_pairs(final(v)@)) == assoc_map(id_pairs(old(v)@)).insert(id, name@),
{
    let n = v.len();
    let mut i: usize = 0;
    while i < n
        invariant
            i <= n,
            n == v@.len(),
            v@ == old(v)@,
            distinct_keys(id_pairs(v@)),
            forall|k: int| 0 <= k < i ==> (#[trigger] v@[k]).0 != id,
        decreases n - i,
    {
        if v[i].0 == id {
            let ghost pre = v@;
            v.set(i, (id, name));
            proof {
                assert(id_pairs(v@) =~= id_pairs(pre).update(i as int, (id, name@)));
                lemma_assoc_update(id_pairs(pre), i as int, (id, name@));
            }
            return;
        }
        i += 1;
    }
    let ghost pre = v@;
    v.push((id, name));
    proof {
        assert(id_pairs(v@).drop_last() =~= id_pairs(pre));
        assert(id_pairs(v@).last() == (id, name@));
        assert forall|a: int, b: int| 0 <= a < b < id_pairs(v@).len() implies (
            #[trigger] id_pairs(v@)[a]).0 != (#[trigger] id_pairs(v@)[b]).0 by {
            if b < pre.len() {
                assert(id_pairs(pre)[a].0 != id_pairs(pre)[b].0);
            } else {
                assert(id_pairs(v@)[b].0 == id);
                assert(v@[a].0 != id);
            }
        }
    }
}

} // verus!

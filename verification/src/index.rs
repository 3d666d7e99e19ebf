//! Policy database indexed by resource type.

use vstd::prelude::*;
use crate::bytecode::CompiledPolicy;
use crate::interpreter::FieldMapping;
use crate::rar::ResourceTypeId;
use crate::text::str_eq;

verus! {

/// The number of times `t` occurs in `types`.
pub open spec fn occurrences(types: Seq<ResourceTypeId>, t: ResourceTypeId) -> nat
    decreases types.len(),
{
    if types.len() == 0 {
        0
    } else {
        occurrences(types.drop_last(), t) + if types.last() == t { 1nat } else { 0nat }
    }
}

/// The positions of the entries indexed under `t`, in order: each entry once for each time
/// its resource types list `t`.
pub open spec fn indexed_under(types: Seq<Seq<ResourceTypeId>>, t: ResourceTypeId) -> Seq<int>
    decreases types.len(),
{
    if types.len() == 0 {
        Seq::empty()
    } else {
        indexed_under(types.drop_last(), t) + Seq::new(occurrences(types.last(), t), |k: int| types.len() - 1)
    }
}

/// The positions that `match_positions` adds for one entry.
pub(crate) fn push_matches(out: &mut Vec<usize>, idx: usize, types: &Vec<ResourceTypeId>, t: ResourceTypeId)
    ensures
        final(out)@ == old(out)@ + Seq::new(occurrences(types@, t), |k: int| idx),
{
    let ghost start = out@;
    let mut j: usize = 0;
    assert(types@.take(0) =~= Seq::<ResourceTypeId>::empty());
    assert(start + Seq::new(0, |k: int| idx) =~= start);
    while j < types.len()
        invariant
            j <= types@.len(),
            out@ == start + Seq::new(occurrences(types@.take(j as int), t), |k: int| idx),
        decreases types@.len() - j,
    {
        assert(types@.take(j + 1).drop_last() =~= types@.take(j as int));
        if types[j] == t {
            out.push(idx);
        }
        proof {
            let n = occurrences(types@.take(j + 1), t);
            assert(out@ =~= start + Seq::new(n, |k: int| idx));
        }
        j = j + 1;
    }
    assert(types@.take(types@.len() as int) =~= types@);
}

/// A stored policy with its metadata.
pub struct StoredPolicy {
    pub name: String,
    pub policy: CompiledPolicy,
    pub field_map: FieldMapping,
    pub resource_types: Vec<ResourceTypeId>,
}

/// Policy database with an index by resource type.
pub struct PolicyDB {
    policies: Vec<StoredPolicy>,
}

impl PolicyDB {
    /// The policies, in the order they were added.
    pub closed spec fn entries(&self) -> Seq<StoredPolicy> {
        self.policies@
    }

    /// The resource types of each policy.
    pub open spec fn types_of(&self) -> Seq<Seq<ResourceTypeId>> {
        self.entries().map_values(|p: StoredPolicy| p.resource_types@)
    }

    /// An empty database.
    pub fn new() -> (db: Self)
        ensures
            db.entries().len() == 0,
    {
        PolicyDB { policies: Vec::new() }
    }

    /// Add a policy at the end.
    pub fn add_policy(&mut self, name: String, policy: CompiledPolicy, field_map: FieldMapping, resource_types: Vec<ResourceTypeId>)
        ensures
            final(self).entries() == old(self).entries().push(StoredPolicy { name, policy, field_map, resource_types }),
    {
        self.policies.push(StoredPolicy { name, policy, field_map, resource_types });
    }

    /// The positions of the policies indexed under a resource type, in order.
    pub fn match_positions(&self, resource_type: ResourceTypeId) -> (v: Vec<usize>)
        ensures
            v@.map_values(|i: usize| i as int) == indexed_under(self.types_of(), resource_type),
    {
        let mut out: Vec<usize> = Vec::new();
        let mut i: usize = 0;
        assert(self.types_of().take(0) =~= Seq::<Seq<ResourceTypeId>>::empty());
        while i < self.policies.len()
            invariant
                i <= self.policies@.len(),
                out@.map_values(|i: usize| i as int) == indexed_under(self.types_of().take(i as int), resource_type),
            decreases self.policies@.len() - i,
        {
            let ghost before = out@;
            push_matches(&mut out, i, &self.policies[i].resource_types, resource_type);
            proof {
                let ts = self.types_of().take(i + 1);
                assert(ts.drop_last() =~= self.types_of().take(i as int));
                assert(ts.last() == self.policies@[i as int].resource_types@);
                assert(out@.map_values(|i: usize| i as int) =~= indexed_under(ts, resource_type));
            }
            i = i + 1;
        }
        assert(self.types_of().take(self.policies@.len() as int) =~= self.types_of());
        out
    }

    /// The policies indexed under a resource type, in order.
    pub fn get_policies_for_resource(&self, resource_type: ResourceTypeId) -> (v: Vec<&StoredPolicy>)
        ensures
            v@.len() == indexed_under(self.types_of(), resource_type).len(),
            forall|k: int| 0 <= k < v@.len() ==> *#[trigger] v@[k] == self.entries()[indexed_under(self.types_of(), resource_type)[k]],
    {
        let positions = self.match_positions(resource_type);
        let ghost want = indexed_under(self.types_of(), resource_type);
        let mut out: Vec<&StoredPolicy> = Vec::new();
        let mut k: usize = 0;
        while k < positions.len()
            invariant
                k <= positions@.len(),
                positions@.map_values(|i: usize| i as int) == want,
                want == indexed_under(self.types_of(), resource_type),
                out@.len() == k,
                forall|m: int| 0 <= m < k ==> *#[trigger] out@[m] == self.entries()[want[m]],
            decreases positions@.len() - k,
        {
            proof { lemma_indexed_in_range(self.types_of(), resource_type, k as int); }
            assert(want[k as int] == positions@[k as int] as int);
            out.push(&self.policies[positions[k]]);
            k = k + 1;
        }
        out
    }

    /// All policies.
    pub fn get_all_policies(&self) -> (s: &[StoredPolicy])
        ensures
            s@ == self.entries(),
    {
        self.policies.as_slice()
    }

    /// The first policy with the given name.
    pub fn get_policy_by_name(&self, name: &str) -> (r: Option<&StoredPolicy>)
        ensures
            match r {
                Some(p) => exists|i: int| 0 <= i < self.entries().len() && *p == self.entries()[i]
                    && p.name@ == name@ && forall|j: int| 0 <= j < i ==> (#[trigger] self.entries()[j]).name@ != name@,
                None => forall|i: int| 0 <= i < self.entries().len() ==> (#[trigger] self.entries()[i]).name@ != name@,
            },
    {
        let mut i: usize = 0;
        while i < self.policies.len()
            invariant
                i <= self.policies@.len(),
                forall|j: int| 0 <= j < i ==> (#[trigger] self.entries()[j]).name@ != name@,
            decreases self.policies@.len() - i,
        {
            if str_eq(self.policies[i].name.as_str(), name) {
                assert(self.entries()[i as int] == self.policies@[i as int]);
                assert(self.entries()[i as int].name@ == name@);
                return Some(&self.policies[i]);
            }
            i = i + 1;
        }
        None
    }

    /// The number of policies.
    pub fn len(&self) -> (n: usize)
        ensures
            n == self.entries().len(),
    {
        self.policies.len()
    }

    /// Whether there is no policy.
    pub fn is_empty(&self) -> (b: bool)
        ensures
            b == (self.entries().len() == 0),
    {
        self.policies.len() == 0
    }
}

impl Default for PolicyDB {
    fn default() -> (db: Self)
        ensures
            db.entries().len() == 0,
    {
        PolicyDB::new()
    }
}

/// Every position indexed under a type is the position of an entry.
pub proof fn lemma_indexed_in_range(types: Seq<Seq<ResourceTypeId>>, t: ResourceTypeId, k: int)
    requires
        0 <= k < indexed_under(types, t).len(),
    ensures
        0 <= indexed_under(types, t)[k] < types.len(),
    decreases types.len(),
{
    if types.len() > 0 {
        let pre = indexed_under(types.drop_last(), t);
        if k < pre.len() {
            lemma_indexed_in_range(types.drop_last(), t, k);
        }
    }
}

} // verus!

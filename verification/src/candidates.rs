//! The candidate registry: remote sources for a track, held in a
//! priority-ordered provider set, highest priority first. The set itself
//! is the provider collection of the `anni_provider` crate; the registry
//! pairs it with the plain descriptors the verified logic reads, keyed by
//! the id each entry carries.

use vstd::prelude::*;

use anni_provider::providers::TypedPriorityProvider;

verus! {

#[verifier::external_type_specification]
#[verifier::external_body]
#[verifier::reject_recursive_types(P)]
pub struct ExTypedPriorityProvider<P>(TypedPriorityProvider<P>);

/// The entries a provider set holds, in stored order: each the
/// caller-assigned priority paired with the candidate id it was inserted
/// with.
pub uninterp spec fn provider_entries(q: TypedPriorityProvider<u64>) -> Seq<(i32, u64)>;

/// Entries ordered by descending priority: no entry has a higher priority
/// than one before it.
pub open spec fn sorted_by_priority_desc(s: Seq<(i32, u64)>) -> bool {
    forall|i: int, j: int| 0 <= i < j < s.len() ==> (#[trigger] s[i]).0 >= (#[trigger] s[j]).0
}

/// Relies on TypedPriorityProvider::new, which sorts the entries it is
/// given by descending priority; on no entries it returns an empty set.
#[verifier::external_body]
fn provider_set_new() -> (q: TypedPriorityProvider<u64>)
    ensures
        provider_entries(q) == Seq::<(i32, u64)>::empty(),
{
    TypedPriorityProvider::new(Vec::new())
}

/// Relies on TypedPriorityProvider::insert: a binary search over the
/// stored entries, compared by descending priority, yields a position
/// whose earlier entries have no lower priority and whose later entries
/// have no higher one — provided the entries are so ordered — and the new
/// entry is inserted there.
#[verifier::external_body]
fn provider_set_insert(q: &mut TypedPriorityProvider<u64>, id: u64, priority: i32)
    requires
        sorted_by_priority_desc(provider_entries(*old(q))),
    ensures
        exists|pos: int|
            {
                &&& 0 <= pos <= provider_entries(*old(q)).len()
                &&& provider_entries(*final(q)) == #[trigger] provider_entries(*old(q)).insert(
                    pos,
                    (priority, id),
                )
                &&& forall|k: int|
                    0 <= k < pos ==> (#[trigger] provider_entries(*old(q))[k]).0 >= priority
                &&& forall|k: int|
                    pos <= k < provider_entries(*old(q)).len() ==> (#[trigger] provider_entries(
                        *old(q),
                    )[k]).0 <= priority
            },
{
    q.insert(id, priority)
}

/// Relies on TypedPriorityProvider::providers, which yields each stored
/// entry's payload in stored order; the wrapper collects them into a
/// vector.
#[verifier::external_body]
fn provider_set_ids(q: &TypedPriorityProvider<u64>) -> (ids: Vec<u64>)
    ensures
        ids@ == provider_entries(*q).map_values(|e: (i32, u64)| e.1),
{
    q.providers().copied().collect()
}

/// Inserting an entry at a position that partitions a descending-sorted
/// sequence by its priority keeps the sequence sorted.
proof fn lemma_insert_preserves_sorted(s: Seq<(i32, u64)>, pos: int, entry: (i32, u64))
    requires
        sorted_by_priority_desc(s),
        0 <= pos <= s.len(),
        forall|k: int| 0 <= k < pos ==> (#[trigger] s[k]).0 >= entry.0,
        forall|k: int| pos <= k < s.len() ==> (#[trigger] s[k]).0 <= entry.0,
    ensures
        sorted_by_priority_desc(s.insert(pos, entry)),
{
    let t = s.insert(pos, entry);
    assert forall|i: int, j: int| 0 <= i < j < t.len() implies (#[trigger] t[i]).0
        >= (#[trigger] t[j]).0 by {
        if i < pos {
            assert(t[i] == s[i]);
        } else if i == pos {
            assert(t[i] == entry);
        } else {
            assert(t[i] == s[i - 1]);
        }
        if j < pos {
            assert(t[j] == s[j]);
        } else if j == pos {
            assert(t[j] == entry);
        } else {
            assert(t[j] == s[j - 1]);
        }
    }
}

/// One candidate source: where its endpoint lives and the authorization
/// it is probed and fetched with.
pub struct Candidate {
    pub base_url: String,
    pub auth: String,
}

impl Candidate {
    pub fn new(base_url: String, auth: String) -> (c: Candidate)
        ensures
            c.base_url@ == base_url@,
            c.auth@ == auth@,
    {
        Candidate { base_url, auth }
    }

    /// A copy with the same endpoint and authorization.
    pub fn duplicate(&self) -> (c: Candidate)
        ensures
            c.base_url@ == self.base_url@,
            c.auth@ == self.auth@,
    {
        Candidate { base_url: self.base_url.clone(), auth: self.auth.clone() }
    }
}

/// The registry of candidate sources: the priority-ordered set of entry
/// ids, and the descriptor each id names. Ids are indices into the
/// descriptor list, so every id an entry carries stays valid.
pub struct CandidateRegistry {
    set: TypedPriorityProvider<u64>,
    descriptors: Vec<Candidate>,
}

impl CandidateRegistry {
    /// The priority-ordered entries of the underlying provider set.
    pub closed spec fn entries(self) -> Seq<(i32, u64)> {
        provider_entries(self.set)
    }

    /// The descriptors ever added, in insertion order, indexed by id.
    pub closed spec fn descriptors_view(self) -> Seq<Candidate> {
        self.descriptors@
    }

    /// Well-formedness: entries are ordered by descending priority and
    /// every id names a descriptor.
    pub open spec fn wf(self) -> bool {
        &&& sorted_by_priority_desc(self.entries())
        &&& forall|k: int|
            0 <= k < self.entries().len() ==> (#[trigger] self.entries()[k]).1
                < self.descriptors_view().len()
    }

    /// An empty registry.
    pub fn new() -> (r: CandidateRegistry)
        ensures
            r.wf(),
            r.entries() == Seq::<(i32, u64)>::empty(),
            r.descriptors_view() == Seq::<Candidate>::empty(),
    {
        CandidateRegistry { set: provider_set_new(), descriptors: Vec::new() }
    }

    /// Adds a candidate under a caller-assigned priority. It enters the
    /// provider set among the entries of equal priority — after those of
    /// higher, before those of lower — and the set stays ordered.
    pub fn add_provider(&mut self, candidate: Candidate, priority: i32)
        requires
            old(self).wf(),
            old(self).descriptors_view().len() < u64::MAX,
        ensures
            final(self).wf(),
            final(self).descriptors_view() == old(self).descriptors_view().push(candidate),
            exists|pos: int|
                {
                    &&& 0 <= pos <= old(self).entries().len()
                    &&& final(self).entries() == #[trigger] old(self).entries().insert(
                        pos,
                        (priority, old(self).descriptors_view().len() as u64),
                    )
                    &&& forall|k: int|
                        0 <= k < pos ==> (#[trigger] old(self).entries()[k]).0 >= priority
                    &&& forall|k: int|
                        pos <= k < old(self).entries().len() ==> (#[trigger] old(
                            self,
                        ).entries()[k]).0 <= priority
                },
    {
        let id: u64 = self.descriptors.len() as u64;
        self.descriptors.push(candidate);
        let ghost before = provider_entries(self.set);
        provider_set_insert(&mut self.set, id, priority);
        proof {
            let pos = choose|pos: int|
                {
                    &&& 0 <= pos <= before.len()
                    &&& provider_entries(self.set) == #[trigger] before.insert(
                        pos,
                        (priority, id),
                    )
                    &&& forall|k: int| 0 <= k < pos ==> (#[trigger] before[k]).0 >= priority
                    &&& forall|k: int|
                        pos <= k < before.len() ==> (#[trigger] before[k]).0 <= priority
                };
            lemma_insert_preserves_sorted(before, pos, (priority, id));
            assert forall|k: int| 0 <= k < self.entries().len() implies (
            #[trigger] self.entries()[k]).1 < self.descriptors_view().len() by {
                if k < pos {
                    assert(self.entries()[k] == before[k]);
                } else if k == pos {
                    assert(self.entries()[k] == (priority, id));
                } else {
                    assert(self.entries()[k] == before[k - 1]);
                }
            }
        }
    }

    /// Empties the registry, dropping every candidate.
    pub fn clear(&mut self)
        ensures
            final(self).wf(),
            final(self).entries() == Seq::<(i32, u64)>::empty(),
            final(self).descriptors_view() == Seq::<Candidate>::empty(),
    {
        self.set = provider_set_new();
        self.descriptors = Vec::new();
    }

    /// The candidates in the order the set stores them: by descending
    /// priority, highest first — the order resolution probes them in.
    pub fn candidates_in_priority_order(&self) -> (out: Vec<Candidate>)
        requires
            self.wf(),
        ensures
            out@.len() == self.entries().len(),
            forall|k: int|
                0 <= k < out@.len() ==> {
                    let id = self.entries()[k].1 as int;
                    &&& (#[trigger] out@[k]).base_url@ == self.descriptors_view()[id].base_url@
                    &&& out@[k].auth@ == self.descriptors_view()[id].auth@
                },
    {
        let ids = provider_set_ids(&self.set);
        let mut out: Vec<Candidate> = Vec::new();
        let mut i: usize = 0;
        while i < ids.len()
            invariant
                self.wf(),
                i <= ids@.len(),
                ids@ == self.entries().map_values(|e: (i32, u64)| e.1),
                out@.len() == i,
                forall|k: int|
                    0 <= k < i ==> {
                        let id = self.entries()[k].1 as int;
                        &&& (#[trigger] out@[k]).base_url@
                            == self.descriptors_view()[id].base_url@
                        &&& out@[k].auth@ == self.descriptors_view()[id].auth@
                    },
            decreases ids@.len() - i,
        {
            let id = ids[i];
            assert(ids@[i as int] == self.entries()[i as int].1);
            let dlen: usize = self.descriptors.len();
            assert(id < dlen as u64);
            let c = self.descriptors[id as usize].duplicate();
            let ghost prev = out@;
            out.push(c);
            proof {
                assert forall|k: int| 0 <= k < i + 1 implies {
                    let id_k = self.entries()[k].1 as int;
                    &&& (#[trigger] out@[k]).base_url@ == self.descriptors_view()[id_k].base_url@
                    &&& out@[k].auth@ == self.descriptors_view()[id_k].auth@
                } by {
                    if k < i {
                        assert(out@[k] == prev[k]);
                    } else {
                        assert(out@[k] == c);
                    }
                }
            }
            i = i + 1;
        }
        out
    }
}

} // verus!

//! The cache classifier: given a command's executor definition and its
//! resolved input digests, decides whether a previous result can be reused,
//! and whether it comes from the local store, the remote store, or a mix.
use vstd::prelude::*;
use crate::command::Executor;
use crate::types::{BlobDigest, CacheHit};

verus! {

/// Deterministic identity of one action: the executor definition plus the
/// ordered digests of the resolved input files.
pub struct CacheKey {
    pub executor: Executor,
    pub input_digests: Vec<BlobDigest>,
}

/// A cached action descriptor: the key it was produced under and the digests
/// of the output blobs it references.
pub struct ActionEntry {
    pub key: CacheKey,
    pub output_digests: Vec<BlobDigest>,
}

/// In-memory model of the content-addressed store: action descriptors and
/// output blobs, each held locally and (when configured) remotely.
pub struct Cache {
    pub local_actions: Vec<ActionEntry>,
    pub local_blobs: Vec<BlobDigest>,
    pub remote_actions: Vec<ActionEntry>,
    pub remote_blobs: Vec<BlobDigest>,
    /// Absence of a remote store is not an error: remote lookups are simply
    /// skipped.
    pub remote_enabled: bool,
}

/// Two executor definitions describe the same action.
pub open spec fn executor_matches(a: Executor, b: Executor) -> bool {
    match (a, b) {
        (
            Executor::Process { program: p1, args: a1 },
            Executor::Process { program: p2, args: a2 },
        ) => p1@ == p2@ && a1@.map_values(|s: String| s@) == a2@.map_values(|s: String| s@),
        (Executor::Task { task: t1, args: a1 }, Executor::Task { task: t2, args: a2 }) => t1@
            == t2@ && a1@.map_values(|s: String| s@) == a2@.map_values(|s: String| s@),
        _ => false,
    }
}

pub open spec fn key_matches(a: CacheKey, b: CacheKey) -> bool {
    executor_matches(a.executor, b.executor) && a.input_digests@ == b.input_digests@
}

/// The first action entry stored under `key`, if any.
pub open spec fn find_action(actions: Seq<ActionEntry>, key: CacheKey) -> Option<ActionEntry>
    decreases actions.len(),
{
    if actions.len() == 0 {
        None
    } else if key_matches(actions.first().key, key) {
        Some(actions.first())
    } else {
        find_action(actions.drop_first(), key)
    }
}

pub open spec fn all_blobs_in(outputs: Seq<BlobDigest>, blobs: Seq<BlobDigest>) -> bool {
    forall|k: int| 0 <= k < outputs.len() ==> blobs.contains(#[trigger] outputs[k])
}

/// Every output blob is available locally, or — failing that — remotely.
pub open spec fn all_blobs_local_or_remote(outputs: Seq<BlobDigest>, c: Cache) -> bool {
    forall|k: int|
        0 <= k < outputs.len() ==> c.local_blobs@.contains(#[trigger] outputs[k])
            || c.remote_blobs@.contains(outputs[k])
}

/// The classification contract: `Local` when descriptor and all blobs are
/// local; `Mixed` when the descriptor is local but some blob must be fetched
/// remotely; `Remote` when everything comes from the remote store; `None`
/// (a full miss, the command must execute) otherwise — including when a
/// stored descriptor references blobs that no store holds, which degrades to
/// a miss rather than failing the command.
pub open spec fn spec_classify(c: Cache, key: CacheKey) -> Option<(CacheHit, Seq<BlobDigest>)> {
    match find_action(c.local_actions@, key) {
        Some(entry) => if all_blobs_in(entry.output_digests@, c.local_blobs@) {
            Some((CacheHit::Local, entry.output_digests@))
        } else if c.remote_enabled && all_blobs_local_or_remote(entry.output_digests@, c) {
            Some((CacheHit::Mixed, entry.output_digests@))
        } else {
            None
        },
        None => if c.remote_enabled {
            match find_action(c.remote_actions@, key) {
                Some(entry) => if all_blobs_in(entry.output_digests@, c.remote_blobs@) {
                    Some((CacheHit::Remote, entry.output_digests@))
                } else {
                    None
                },
                None => None,
            }
        } else {
            None
        },
    }
}

/// The output digests a classification carries (empty on a miss).
pub open spec fn classified_outputs(r: Option<(CacheHit, Seq<BlobDigest>)>) -> Seq<BlobDigest> {
    match r {
        Some(p) => p.1,
        None => Seq::empty(),
    }
}

/// Keys describing the same action look up the same entry.
proof fn lemma_find_action_congruent(actions: Seq<ActionEntry>, k1: CacheKey, k2: CacheKey)
    requires
        key_matches(k1, k2),
    ensures
        find_action(actions, k1) == find_action(actions, k2),
    decreases actions.len(),
{
    if actions.len() > 0 {
        lemma_find_action_congruent(actions.drop_first(), k1, k2);
    }
}

/// Keys describing the same action classify identically.
pub proof fn lemma_classify_congruent(c: Cache, k1: CacheKey, k2: CacheKey)
    requires
        key_matches(k1, k2),
    ensures
        spec_classify(c, k1) == spec_classify(c, k2),
{
    lemma_find_action_congruent(c.local_actions@, k1, k2);
    lemma_find_action_congruent(c.remote_actions@, k1, k2);
}

fn string_vec_matches(a: &Vec<String>, b: &Vec<String>) -> (r: bool)
    ensures
        r == (a@.map_values(|s: String| s@) == b@.map_values(|s: String| s@)),
{
    if a.len() != b.len() {
        proof {
            assert(a@.map_values(|s: String| s@).len() == a@.len());
            assert(b@.map_values(|s: String| s@).len() == b@.len());
        }
        return false;
    }
    let mut k: usize = 0;
    while k < a.len()
        invariant
            k <= a@.len(),
            a@.len() == b@.len(),
            forall|m: int| 0 <= m < k ==> (#[trigger] a@[m])@ == b@[m]@,
        decreases a@.len() - k,
    {
        if !(a[k] == b[k]) {
            proof {
                assert(a@.map_values(|s: String| s@)[k as int] == a@[k as int]@);
                assert(b@.map_values(|s: String| s@)[k as int] == b@[k as int]@);
            }
            return false;
        }
        k += 1;
    }
    proof {
        assert(a@.map_values(|s: String| s@) =~= b@.map_values(|s: String| s@));
    }
    true
}

fn digest_vec_matches(a: &Vec<BlobDigest>, b: &Vec<BlobDigest>) -> (r: bool)
    ensures
        r == (a@ == b@),
{
    if a.len() != b.len() {
        return false;
    }
    let mut k: usize = 0;
    while k < a.len()
        invariant
            k <= a@.len(),
            a@.len() == b@.len(),
            forall|m: int| 0 <= m < k ==> a@[m] == b@[m],
        decreases a@.len() - k,
    {
        if !(a[k] == b[k]) {
            return false;
        }
        k += 1;
    }
    proof {
        assert(a@ =~= b@);
    }
    true
}

fn executor_eq(a: &Executor, b: &Executor) -> (r: bool)
    ensures
        r == executor_matches(*a, *b),
{
    match (a, b) {
        (
            Executor::Process { program: p1, args: a1 },
            Executor::Process { program: p2, args: a2 },
        ) => *p1 == *p2 && string_vec_matches(a1, a2),
        (Executor::Task { task: t1, args: a1 }, Executor::Task { task: t2, args: a2 }) => *t1 == *t2
            && string_vec_matches(a1, a2),
        _ => false,
    }
}

fn key_eq(a: &CacheKey, b: &CacheKey) -> (r: bool)
    ensures
        r == key_matches(*a, *b),
{
    executor_eq(&a.executor, &b.executor) && digest_vec_matches(&a.input_digests, &b.input_digests)
}

fn find_action_index(actions: &Vec<ActionEntry>, key: &CacheKey) -> (r: Option<usize>)
    ensures
        match r {
            Some(i) => i < actions@.len() && find_action(actions@, *key) == Some(actions@[i as int]),
            None => find_action(actions@, *key) is None,
        },
{
    proof {
        assert(actions@.skip(0) == actions@);
    }
    let mut i: usize = 0;
    while i < actions.len()
        invariant
            i <= actions@.len(),
            find_action(actions@, *key) == find_action(actions@.skip(i as int), *key),
        decreases actions@.len() - i,
    {
        if key_eq(&actions[i].key, key) {
            proof {
                assert(actions@.skip(i as int).first() == actions@[i as int]);
            }
            return Some(i);
        }
        proof {
            assert(actions@.skip(i as int).drop_first() == actions@.skip(i as int + 1));
        }
        i += 1;
    }
    None
}

fn blobs_contain(blobs: &Vec<BlobDigest>, d: &BlobDigest) -> (r: bool)
    ensures
        r == blobs@.contains(*d),
{
    let mut i: usize = 0;
    while i < blobs.len()
        invariant
            i <= blobs@.len(),
            forall|m: int| 0 <= m < i ==> blobs@[m] != *d,
        decreases blobs@.len() - i,
    {
        if blobs[i] == *d {
            return true;
        }
        i += 1;
    }
    false
}

impl Cache {
    pub fn new(remote_enabled: bool) -> (r: Cache)
        ensures
            r.local_actions@.len() == 0,
            r.local_blobs@.len() == 0,
            r.remote_actions@.len() == 0,
            r.remote_blobs@.len() == 0,
            r.remote_enabled == remote_enabled,
    {
        Cache {
            local_actions: Vec::new(),
            local_blobs: Vec::new(),
            remote_actions: Vec::new(),
            remote_blobs: Vec::new(),
            remote_enabled,
        }
    }

    /// Looks the key up locally first, then — only on a local miss and when a
    /// remote store is configured — remotely. Returns the classification and
    /// the output digests to materialize, or `None` on a full miss.
    pub fn classify(&self, key: &CacheKey) -> (r: Option<(CacheHit, Vec<BlobDigest>)>)
        ensures
            match r {
                Some((hit, outputs)) => spec_classify(*self, *key) == Some((hit, outputs@)),
                None => spec_classify(*self, *key) is None,
            },
    {
        match find_action_index(&self.local_actions, key) {
            Some(i) => {
                let entry = &self.local_actions[i];
                let mut all_local = true;
                let mut k: usize = 0;
                while k < entry.output_digests.len()
                    invariant
                        k <= entry.output_digests@.len(),
                        entry == &self.local_actions@[i as int],
                        all_local == (forall|m: int|
                            0 <= m < k ==> self.local_blobs@.contains(
                                #[trigger] entry.output_digests@[m],
                            )),
                    decreases entry.output_digests@.len() - k,
                {
                    if !blobs_contain(&self.local_blobs, &entry.output_digests[k]) {
                        all_local = false;
                    }
                    k += 1;
                }
                if all_local {
                    return Some((CacheHit::Local, clone_digests(&entry.output_digests)));
                }
                if !self.remote_enabled {
                    return None;
                }
                let mut all_somewhere = true;
                let mut k2: usize = 0;
                while k2 < entry.output_digests.len()
                    invariant
                        k2 <= entry.output_digests@.len(),
                        entry == &self.local_actions@[i as int],
                        all_somewhere == (forall|m: int|
                            0 <= m < k2 ==> self.local_blobs@.contains(
                                #[trigger] entry.output_digests@[m],
                            ) || self.remote_blobs@.contains(entry.output_digests@[m])),
                    decreases entry.output_digests@.len() - k2,
                {
                    if !blobs_contain(&self.local_blobs, &entry.output_digests[k2])
                        && !blobs_contain(&self.remote_blobs, &entry.output_digests[k2]) {
                        all_somewhere = false;
                    }
                    k2 += 1;
                }
                if all_somewhere {
                    Some((CacheHit::Mixed, clone_digests(&entry.output_digests)))
                } else {
                    None
                }
            },
            None => {
                if !self.remote_enabled {
                    return None;
                }
                match find_action_index(&self.remote_actions, key) {
                    Some(i) => {
                        let entry = &self.remote_actions[i];
                        let mut all_remote = true;
                        let mut k: usize = 0;
                        while k < entry.output_digests.len()
                            invariant
                                k <= entry.output_digests@.len(),
                                entry == &self.remote_actions@[i as int],
                                all_remote == (forall|m: int|
                                    0 <= m < k ==> self.remote_blobs@.contains(
                                        #[trigger] entry.output_digests@[m],
                                    )),
                            decreases entry.output_digests@.len() - k,
                        {
                            if !blobs_contain(&self.remote_blobs, &entry.output_digests[k]) {
                                all_remote = false;
                            }
                            k += 1;
                        }
                        if all_remote {
                            Some((CacheHit::Remote, clone_digests(&entry.output_digests)))
                        } else {
                            None
                        }
                    },
                    None => None,
                }
            },
        }
    }

    /// After a successful real execution, records the action descriptor and
    /// its output blobs in the local store.
    pub fn store_local(&mut self, key: CacheKey, output_digests: Vec<BlobDigest>)
        ensures
            final(self).local_actions@ == old(self).local_actions@.push(
                ActionEntry { key, output_digests },
            ),
            final(self).local_blobs@ == old(self).local_blobs@ + output_digests@,
            final(self).remote_actions == old(self).remote_actions,
            final(self).remote_blobs == old(self).remote_blobs,
            final(self).remote_enabled == old(self).remote_enabled,
    {
        let mut k: usize = 0;
        while k < output_digests.len()
            invariant
                k <= output_digests@.len(),
                self.local_blobs@ == old(self).local_blobs@ + output_digests@.subrange(
                    0,
                    k as int,
                ),
                self.local_actions == old(self).local_actions,
                self.remote_actions == old(self).remote_actions,
                self.remote_blobs == old(self).remote_blobs,
                self.remote_enabled == old(self).remote_enabled,
            decreases output_digests@.len() - k,
        {
            self.local_blobs.push(output_digests[k]);
            proof {
                assert(old(self).local_blobs@ + output_digests@.subrange(0, k as int + 1) == (old(
                    self,
                ).local_blobs@ + output_digests@.subrange(0, k as int)).push(
                    output_digests@[k as int],
                ));
            }
            k += 1;
        }
        proof {
            assert(output_digests@.subrange(0, output_digests@.len() as int) == output_digests@);
        }
        self.local_actions.push(ActionEntry { key, output_digests });
    }
}

/// Copies a digest vector: digests are plain copyable values.
pub fn clone_digests(v: &Vec<BlobDigest>) -> (r: Vec<BlobDigest>)
    ensures
        r@ == v@,
{
    let mut r: Vec<BlobDigest> = Vec::new();
    let mut k: usize = 0;
    while k < v.len()
        invariant
            k <= v@.len(),
            r@ == v@.subrange(0, k as int),
        decreases v@.len() - k,
    {
        r.push(v[k]);
        proof {
            assert(v@.subrange(0, k as int + 1) == v@.subrange(0, k as int).push(v@[k as int]));
        }
        k += 1;
    }
    proof {
        assert(v@.subrange(0, v@.len() as int) == v@);
    }
    r
}

} // verus!

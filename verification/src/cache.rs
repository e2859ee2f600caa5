//! A bounded in-memory cache of normalized schemas, keyed by a hash of the
//! schema's bytes and checked against the bytes themselves.
use std::collections::{HashMap, VecDeque};
use std::hash::Hasher;

use vstd::prelude::*;

use crate::normalize::pipeline::NormalizedSchema;

verus! {

broadcast use vstd::std_specs::hash::group_hash_axioms;

/// The most schemas the cache holds.
pub const MAX_MEMORY_ENTRIES: usize = 1_000;

#[derive(Debug)]
struct CacheEntry {
    schema: NormalizedSchema,
    original_bytes: Vec<u8>,
}

/// Bounded in-memory cache for normalized schemas.
///
/// The hash is fast rather than collision resistant, so every hit also
/// compares the original bytes: a collision is a miss, never the wrong
/// schema. When full, a new key evicts the oldest one.
#[derive(Debug)]
pub struct Cache {
    entries: HashMap<u64, CacheEntry>,
    insertion_order: VecDeque<u64>,
}

impl Cache {
    /// What the cache holds: for each hash, the bytes and the schema.
    pub closed spec fn contents(&self) -> Map<u64, (Seq<u8>, NormalizedSchema)> {
        Map::new(
            |h: u64| self.entries@.contains_key(h),
            |h: u64| (self.entries@[h].original_bytes@, self.entries@[h].schema),
        )
    }

    /// The hashes held, oldest first.
    pub closed spec fn order(&self) -> Seq<u64> {
        self.insertion_order@
    }

    /// Every held hash appears once in the insertion order, and the cache
    /// holds at most `MAX_MEMORY_ENTRIES` schemas.
    pub closed spec fn wf(&self) -> bool {
        &&& self.entries@.dom().finite()
        &&& self.insertion_order@.no_duplicates()
        &&& self.insertion_order@.to_set() == self.entries@.dom()
        &&& self.entries@.len() <= MAX_MEMORY_ENTRIES
    }

    proof fn lemma_len(&self)
        requires
            self.wf(),
        ensures
            self.contents().dom() == self.entries@.dom(),
            self.contents().len() == self.order().len(),
            self.contents().len() <= MAX_MEMORY_ENTRIES,
            self.order().to_set() == self.contents().dom(),
            self.order().no_duplicates(),
    {
        assert(self.contents().dom() =~= self.entries@.dom());
        self.insertion_order@.unique_seq_to_set();
    }

    /// An empty cache.
    pub fn new() -> (r: Self)
        ensures
            r.wf(),
            r.contents() == Map::<u64, (Seq<u8>, NormalizedSchema)>::empty(),
            r.order() == Seq::<u64>::empty(),
    {
        let r = Cache { entries: HashMap::new(), insertion_order: VecDeque::new() };
        assert(r.insertion_order@.to_set() =~= Set::<u64>::empty());
        assert(r.contents() =~= Map::<u64, (Seq<u8>, NormalizedSchema)>::empty());
        r
    }

    /// The schema cached under `hash`, when it was cached from exactly
    /// these bytes.
    pub fn get(&self, hash: u64, bytes: &[u8]) -> (r: Option<&NormalizedSchema>)
        requires
            self.wf(),
        ensures
            match r {
                Some(s) => self.contents().contains_key(hash) && self.contents()[hash] == (bytes@, *s),
                None => !(self.contents().contains_key(hash) && self.contents()[hash].0 == bytes@),
            },
            lookup(self.contents(), hash, bytes@) == match r {
                Some(s) => Some(*s),
                None => None::<NormalizedSchema>,
            },
    {
        match self.entries.get(&hash) {
            Some(entry) => {
                if bytes_equal(entry.original_bytes.as_slice(), bytes) {
                    Some(&entry.schema)
                } else {
                    None
                }
            },
            None => None,
        }
    }

    /// Cache `schema` under `hash` with the bytes it came from. A hash held
    /// already is overwritten in place; a new one, when the cache is full,
    /// first evicts the oldest.
    pub fn insert(&mut self, hash: u64, bytes: Vec<u8>, schema: NormalizedSchema)
        requires
            old(self).wf(),
        ensures
            final(self).wf(),
            final(self).contents().len() <= MAX_MEMORY_ENTRIES,
            final(self).contents().contains_key(hash) && final(self).contents()[hash] == (bytes@, schema),
            old(self).contents().contains_key(hash) ==> final(self).contents() == old(self).contents().insert(
                hash,
                (bytes@, schema),
            ) && final(self).order() == old(self).order(),
            !old(self).contents().contains_key(hash) && old(self).contents().len() < MAX_MEMORY_ENTRIES
                ==> final(self).contents() == old(self).contents().insert(hash, (bytes@, schema))
                && final(self).order() == old(self).order().push(hash),
            !old(self).contents().contains_key(hash) && old(self).contents().len() >= MAX_MEMORY_ENTRIES
                ==> final(self).contents() == old(self).contents().remove(old(self).order()[0]).insert(
                hash,
                (bytes@, schema),
            ) && final(self).order() == old(self).order().drop_first().push(hash),
            cached_into(old(self).contents(), old(self).order(), hash, bytes@, schema, final(self).contents()),
    {
        proof {
            self.lemma_len();
        }
        let ghost old_entries = self.entries@;
        let ghost old_order = self.insertion_order@;
        let is_new = !self.entries.contains_key(&hash);
        if is_new && self.entries.len() >= MAX_MEMORY_ENTRIES {
            assert(old_order.len() > 0);
            match self.insertion_order.pop_front() {
                Some(oldest) => {
                    self.entries.remove(&oldest);
                    proof {
                        assert(old_order[0] == oldest);
                        assert(old_order.drop_first() =~= self.insertion_order@);
                        assert(old_order.to_set().contains(oldest));
                        assert(self.insertion_order@.to_set() =~= old_order.to_set().remove(oldest)) by {
                            assert forall|x: u64| self.insertion_order@.to_set().contains(x) implies x != oldest by {
                                let k = choose|k: int| 0 <= k < self.insertion_order@.len() && self.insertion_order@[k] == x;
                                assert(old_order[k + 1] == x);
                            }
                            assert forall|x: u64| old_order.to_set().contains(x) && x != oldest implies self.insertion_order@.to_set().contains(x) by {
                                let k = choose|k: int| 0 <= k < old_order.len() && old_order[k] == x;
                                assert(k != 0);
                                assert(self.insertion_order@[k - 1] == x);
                            }
                        }
                        self.insertion_order@.unique_seq_to_set();
                    }
                },
                None => {},
            }
        }
        let ghost mid_entries = self.entries@;
        let ghost mid_order = self.insertion_order@;
        self.entries.insert(hash, CacheEntry { schema, original_bytes: bytes });
        if is_new {
            self.insertion_order.push_back(hash);
        }
        proof {
            if is_new {
                assert(!mid_order.contains(hash)) by {
                    if mid_order.contains(hash) {
                        assert(mid_order.to_set().contains(hash));
                    }
                }
                assert(self.insertion_order@ =~= mid_order.push(hash));
                mid_order.lemma_push_to_set_commute(hash);
                assert(self.insertion_order@.to_set() =~= mid_order.to_set().insert(hash));
                assert(self.insertion_order@.no_duplicates()) by {
                    assert forall|i: int, j: int|
                        0 <= i < self.insertion_order@.len() && 0 <= j < self.insertion_order@.len() && i != j implies
                        self.insertion_order@[i] != self.insertion_order@[j] by {
                        if i == mid_order.len() as int {
                            assert(mid_order.contains(self.insertion_order@[j]));
                        } else if j == mid_order.len() as int {
                            assert(mid_order.contains(self.insertion_order@[i]));
                        }
                    }
                }
                self.insertion_order@.unique_seq_to_set();
                mid_order.unique_seq_to_set();
            }
            assert(self.entries@.dom() =~= mid_entries.dom().insert(hash));
            assert(self.entries@.dom().finite());
            assert(self.insertion_order@.no_duplicates());
            assert(self.insertion_order@.to_set() == self.entries@.dom());
            assert(self.entries@.len() <= MAX_MEMORY_ENTRIES);
            assert(self.contents() =~= Map::new(
                |h: u64| self.entries@.contains_key(h),
                |h: u64| (self.entries@[h].original_bytes@, self.entries@[h].schema),
            ));
        }
        proof {
            self.lemma_len();
            let c_old = Map::new(
                |h: u64| old_entries.contains_key(h),
                |h: u64| (old_entries[h].original_bytes@, old_entries[h].schema),
            );
            if is_new && old_entries.len() >= MAX_MEMORY_ENTRIES {
                assert(self.contents() =~= c_old.remove(old_order[0]).insert(hash, (bytes@, schema)));
            } else {
                assert(self.contents() =~= c_old.insert(hash, (bytes@, schema)));
            }
        }
    }

    /// Drop every cached schema.
    pub fn clear(&mut self)
        ensures
            final(self).wf(),
            final(self).contents() == Map::<u64, (Seq<u8>, NormalizedSchema)>::empty(),
            final(self).order() == Seq::<u64>::empty(),
    {
        self.entries.clear();
        self.insertion_order.clear();
        assert(self.insertion_order@.to_set() =~= Set::<u64>::empty());
        assert(self.contents() =~= Map::<u64, (Seq<u8>, NormalizedSchema)>::empty());
    }

    /// How many schemas are cached.
    pub fn len(&self) -> (r: usize)
        requires
            self.wf(),
        ensures
            r == self.contents().len(),
    {
        proof {
            self.lemma_len();
        }
        self.entries.len()
    }

    /// Is nothing cached?
    pub fn is_empty(&self) -> (r: bool)
        requires
            self.wf(),
        ensures
            r == (self.contents().len() == 0),
    {
        proof {
            self.lemma_len();
        }
        self.entries.is_empty()
    }
}

/// What a lookup of `hash` with `bytes` finds in cache contents `c`: the
/// schema cached under that hash from exactly these bytes.
pub open spec fn lookup(c: Map<u64, (Seq<u8>, NormalizedSchema)>, hash: u64, bytes: Seq<u8>) -> Option<NormalizedSchema> {
    if c.contains_key(hash) && c[hash].0 == bytes {
        Some(c[hash].1)
    } else {
        None
    }
}

/// `after` is `before` once `schema` was cached under `hash` from `bytes`,
/// `order` being the insertion order before: a held hash is overwritten; a
/// new one evicts the oldest first when the cache is full.
pub open spec fn cached_into(
    before: Map<u64, (Seq<u8>, NormalizedSchema)>,
    order: Seq<u64>,
    hash: u64,
    bytes: Seq<u8>,
    schema: NormalizedSchema,
    after: Map<u64, (Seq<u8>, NormalizedSchema)>,
) -> bool {
    if before.contains_key(hash) || before.len() < MAX_MEMORY_ENTRIES {
        after == before.insert(hash, (bytes, schema))
    } else {
        after == before.remove(order[0]).insert(hash, (bytes, schema))
    }
}

/// A lookup right after caching `schema` under `hash` from `bytes` finds it
/// with those bytes and misses with any others, so a hash collision is a
/// miss and never another input's schema; every other hash answers as
/// before, but for the oldest one when it was evicted to make room; and an
/// empty cache finds nothing.
pub proof fn lemma_lookup_after_insert(
    before: Map<u64, (Seq<u8>, NormalizedSchema)>,
    order: Seq<u64>,
    hash: u64,
    bytes: Seq<u8>,
    schema: NormalizedSchema,
    after: Map<u64, (Seq<u8>, NormalizedSchema)>,
    other: u64,
    probe: Seq<u8>,
)
    requires
        cached_into(before, order, hash, bytes, schema, after),
    ensures
        lookup(after, hash, probe) == if probe == bytes { Some(schema) } else { None },
        other != hash && (before.contains_key(hash) || before.len() < MAX_MEMORY_ENTRIES || other != order[0])
            ==> lookup(after, other, probe) == lookup(before, other, probe),
        lookup(Map::<u64, (Seq<u8>, NormalizedSchema)>::empty(), other, probe) is None,
{
}

/// Do `a` and `b` hold the same bytes?
fn bytes_equal(a: &[u8], b: &[u8]) -> (r: bool)
    ensures
        r == (a@ == b@),
{
    if a.len() != b.len() {
        return false;
    }
    let mut i: usize = 0;
    while i < a.len()
        invariant
            i <= a.len(),
            a.len() == b.len(),
            forall|j: int| 0 <= j < i ==> a@[j] == b@[j],
        decreases a.len() - i,
    {
        if a[i] != b[i] {
            return false;
        }
        i = i + 1;
    }
    assert(a@ =~= b@);
    true
}

/// Hashes bytes with `rustc_hash::FxHasher`: one `write` of the bytes into a
/// default hasher, then `finish`. Nothing is claimed of the value, which
/// differs between 32-bit and 64-bit targets.
#[verifier::external_body]
pub fn hash_bytes(bytes: &[u8]) -> (r: u64) {
    let mut hasher = rustc_hash::FxHasher::default();
    hasher.write(bytes);
    hasher.finish()
}

} // verus!

//! A fixed-bucket hash map with separate chaining, used elsewhere in the
//! system as a generic associative container. It never resizes its bucket
//! array.

use core::hash::Hash;
use vstd::multiset::Multiset;
use vstd::prelude::*;
use vstd::seq_lib::group_to_multiset_ensures;
use vstd::std_specs::cmp::PartialEqSpec;

verus! {

broadcast use group_to_multiset_ensures, vstd::multiset::group_multiset_axioms;

/// Multiplier of the polynomial rolling hash.
pub const HASH_BASE: u64 = 101;

/// Number of buckets; fixed for the life of a map.
pub const CAPACITY: usize = 101;

/// One step of the polynomial rolling hash: absorb one byte.
pub open spec fn poly_step(state: u64, byte: u8) -> u64 {
    state.wrapping_mul(HASH_BASE).wrapping_add(byte as u64)
}

/// The polynomial rolling hash of `msg`, starting from `state`: for a message
/// `[a, b, c]` the result is `((state * B + a) * B + b) * B + c` modulo 2^64,
/// with `B` the base.
pub open spec fn poly_hash(state: u64, msg: Seq<u8>) -> u64
    decreases msg.len(),
{
    if msg.len() == 0 {
        state
    } else {
        poly_step(poly_hash(state, msg.drop_last()), msg.last())
    }
}

/// A polynomial rolling hasher over a 64-bit state, seeded per instance from
/// a process-wide randomness source.
pub struct DefaultHasher(pub u64);

/// Relies on `std::hash::RandomState` as the process-wide randomness source:
/// each builder draws fresh per-process random keys, so the digest of the
/// empty write sequence serves as a random seed. Nothing is assumed about
/// the value.
#[verifier::external_body]
fn entropy() -> u64 {
    let state = std::hash::RandomState::new();
    let hasher = std::hash::BuildHasher::build_hasher(&state);
    std::hash::Hasher::finish(&hasher)
}

/// Relies on `core::hash::Hash::hash` for the key type: the key feeds its
/// representative bytes into the hasher. Which bytes a key contributes is the
/// key type's own affair, so nothing is assumed about the state afterward.
#[verifier::external_body]
fn feed_key<K: Hash>(hasher: &mut DefaultHasher, key: &K) {
    key.hash(hasher)
}

impl DefaultHasher {
    /// A hasher whose initial state is a fresh draw from the randomness
    /// source.
    pub fn new() -> Self {
        DefaultHasher(entropy())
    }

    /// Absorb `msg` into the state, byte by byte.
    pub fn write(&mut self, msg: &[u8])
        ensures
            final(self).0 == poly_hash(old(self).0, msg@),
    {
        let ghost start = self.0;
        for i in 0..msg.len()
            invariant
                self.0 == poly_hash(start, msg@.take(i as int)),
        {
            let c = msg[i];
            self.0 = self.0.wrapping_mul(HASH_BASE).wrapping_add(c as u64);
            proof {
                assert(msg@.take(i + 1).drop_last() =~= msg@.take(i as int));
                assert(msg@.take(i + 1).last() == msg@[i as int]);
            }
        }
        proof {
            assert(msg@.take(msg@.len() as int) =~= msg@);
        }
    }

    /// The current state as the digest.
    pub fn finish(&self) -> (r: u64)
        ensures
            r == self.0,
    {
        self.0
    }
}

impl core::hash::Hasher for DefaultHasher {
    fn finish(&self) -> u64 {
        DefaultHasher::finish(self)
    }

    fn write(&mut self, msg: &[u8]) {
        DefaultHasher::write(self, msg)
    }
}

/// The multiset of key-value pairs held by a sequence of buckets.
pub open spec fn bucket_entries<K, V>(buckets: Seq<Vec<(K, V)>>) -> Multiset<(K, V)>
    decreases buckets.len(),
{
    if buckets.len() == 0 {
        Multiset::empty()
    } else {
        bucket_entries(buckets.drop_last()).add(buckets.last()@.to_multiset())
    }
}

/// Replacing one bucket exchanges exactly that bucket's contribution to the
/// entries.
proof fn lemma_bucket_entries_update<K, V>(buckets: Seq<Vec<(K, V)>>, i: int, b: Vec<(K, V)>)
    requires
        0 <= i < buckets.len(),
    ensures
        bucket_entries(buckets.update(i, b)).add(buckets[i]@.to_multiset()) == bucket_entries(
            buckets,
        ).add(b@.to_multiset()),
    decreases buckets.len(),
{
    let s2 = buckets.update(i, b);
    if i == buckets.len() - 1 {
        assert(s2.drop_last() =~= buckets.drop_last());
        assert(bucket_entries(s2).add(buckets[i]@.to_multiset()) =~= bucket_entries(buckets).add(
            b@.to_multiset(),
        ));
    } else {
        let dl = buckets.drop_last();
        assert(s2.drop_last() =~= dl.update(i, b));
        assert(s2.last() == buckets.last());
        assert(dl[i] == buckets[i]);
        lemma_bucket_entries_update(dl, i, b);
        let l = buckets.last()@.to_multiset();
        let bi = buckets[i]@.to_multiset();
        let bb = b@.to_multiset();
        assert(bucket_entries(s2) == bucket_entries(dl.update(i, b)).add(l));
        assert(bucket_entries(dl.update(i, b)).add(l).add(bi) =~= bucket_entries(
            dl.update(i, b),
        ).add(bi).add(l));
        assert(bucket_entries(dl).add(bb).add(l) =~= bucket_entries(dl).add(l).add(bb));
        assert(bucket_entries(buckets) == bucket_entries(dl).add(l));
        assert(bucket_entries(s2).add(buckets[i]@.to_multiset()) =~= bucket_entries(buckets).add(
            b@.to_multiset(),
        ));
    }
}

/// A pair held by one bucket is among the entries.
proof fn lemma_bucket_entries_contains<K, V>(buckets: Seq<Vec<(K, V)>>, i: int, p: (K, V))
    requires
        0 <= i < buckets.len(),
        buckets[i]@.to_multiset().contains(p),
    ensures
        bucket_entries(buckets).contains(p),
    decreases buckets.len(),
{
    if i == buckets.len() - 1 {
    } else {
        lemma_bucket_entries_contains(buckets.drop_last(), i, p);
    }
}

/// A fixed-capacity associative container: `CAPACITY` buckets with separate
/// chaining and no resizing. Keys hash through the seeded polynomial hasher;
/// duplicate keys may coexist, and `get` returns one of the matches.
pub struct HashMap<K, V> {
    base: Vec<Vec<(K, V)>>,
    seed: u64,
}

impl<K, V> View for HashMap<K, V> {
    type V = Multiset<(K, V)>;

    /// A map is viewed as the multiset of its key-value pairs.
    closed spec fn view(&self) -> Multiset<(K, V)> {
        bucket_entries(self.base@)
    }
}

impl<K, V> HashMap<K, V> where K: Eq + Hash {
    /// Well-formedness: the bucket array has exactly `CAPACITY` buckets.
    pub closed spec fn wf(&self) -> bool {
        self.base@.len() == CAPACITY
    }

    /// An empty map with `CAPACITY` empty buckets. Its hash function is
    /// fixed here, by one draw from the randomness source.
    pub fn new() -> (r: Self)
        ensures
            r.wf(),
            r@ == Multiset::<(K, V)>::empty(),
    {
        let mut base: Vec<Vec<(K, V)>> = Vec::with_capacity(CAPACITY);
        let mut n: usize = 0;
        while n < CAPACITY
            invariant
                n <= CAPACITY,
                base@.len() == n,
                bucket_entries(base@) == Multiset::<(K, V)>::empty(),
            decreases CAPACITY - n,
        {
            let ghost prev = base@;
            let bucket: Vec<(K, V)> = Vec::new();
            base.push(bucket);
            n = n + 1;
            proof {
                assert(base@.drop_last() =~= prev);
                assert(base@.last()@.to_multiset() =~= Multiset::<(K, V)>::empty());
                assert(bucket_entries(base@) =~= Multiset::<(K, V)>::empty());
            }
        }
        Self { base, seed: entropy() }
    }

    /// The bucket index of `k`: the instance-seeded polynomial digest of the
    /// key's bytes, reduced modulo the bucket count.
    fn hash(&self, k: &K) -> (r: usize)
        ensures
            r < CAPACITY,
    {
        let mut hasher = DefaultHasher(self.seed);
        feed_key(&mut hasher, k);
        bucket_index(hasher.finish())
    }

    /// The value of the first pair in `bucket` whose key equals `k`.
    ///
    /// When the key type's `==` operator agrees with its logical equality,
    /// the lookup succeeds exactly when the bucket holds a pair with an
    /// equal key, and the result is the value of the earliest such pair.
    pub fn find_first<'a>(bucket: &'a Vec<(K, V)>, k: &K) -> (r: Option<&'a V>)
        ensures
            K::obeys_eq_spec() ==> ((r is Some) <==> exists|j: int|
                0 <= j < bucket@.len() && (#[trigger] bucket@[j].0.eq_spec(k))),
            K::obeys_eq_spec() ==> (r matches Some(v) ==> exists|j: int|
                {
                    &&& 0 <= j < bucket@.len()
                    &&& #[trigger] bucket@[j].0.eq_spec(k)
                    &&& bucket@[j].1 == *v
                    &&& forall|j2: int| 0 <= j2 < j ==> !bucket@[j2].0.eq_spec(k)
                }),
    {
        let n: usize = bucket.len();
        let mut j: usize = 0;
        while j < n
            invariant
                n == bucket@.len(),
                j <= n,
                K::obeys_eq_spec() ==> forall|j2: int| 0 <= j2 < j
                    ==> !(#[trigger] bucket@[j2].0.eq_spec(k)),
            decreases n - j,
        {
            if bucket[j].0 == *k {
                return Some(&bucket[j].1);
            }
            j = j + 1;
        }
        None
    }

    /// Insert the pair `(k, v)`: the entries grow by exactly that pair. A
    /// pair already present under an equal key is kept beside it, not
    /// replaced.
    pub fn insert(&mut self, k: K, v: V)
        requires
            old(self).wf(),
        ensures
            final(self).wf(),
            final(self)@ == old(self)@.insert((k, v)),
    {
        let i: usize = self.hash(&k);
        let ghost buckets = self.base@;
        let ghost p = (k, v);
        self.base[i].push((k, v));
        proof {
            let nb = self.base@[i as int];
            let bi = buckets[i as int]@.to_multiset();
            assert(self.base@ == buckets.update(i as int, nb));
            assert(nb@ == buckets[i as int]@.push(p));
            lemma_bucket_entries_update(buckets, i as int, nb);
            assert(nb@.to_multiset() =~= bi.insert(p));
            assert(bucket_entries(buckets).add(bi.insert(p)) =~= bucket_entries(buckets).insert(
                p,
            ).add(bi));
            assert(bucket_entries(self.base@).add(bi) == bucket_entries(buckets).insert(p).add(bi));
            assert forall|x: (K, V)|
                bucket_entries(self.base@).count(x) == bucket_entries(buckets).insert(p).count(
                    x,
                ) by {
                assert(bucket_entries(self.base@).add(bi).count(x) == bucket_entries(
                    buckets,
                ).insert(p).add(bi).count(x));
            }
            assert(bucket_entries(self.base@) =~= bucket_entries(buckets).insert(p));
        }
    }

    /// Look up `k`: a reference to the value of an entry whose key equals
    /// `k`, if the map holds one.
    ///
    /// When the key type's `==` operator agrees with its logical equality, a
    /// hit is the value of a stored pair with an equal key, and a map that
    /// holds no pair with an equal key always misses.
    pub fn get(&self, k: &K) -> (r: Option<&V>)
        requires
            self.wf(),
        ensures
            K::obeys_eq_spec() ==> (r matches Some(v) ==> exists|p: (K, V)|
                #[trigger] self@.contains(p) && p.0.eq_spec(k) && p.1 == *v),
            (K::obeys_eq_spec() && (forall|p: (K, V)| self@.contains(p) ==> !p.0.eq_spec(k)))
                ==> r is None,
    {
        let i: usize = self.hash(k);
        let r = Self::find_first(&self.base[i], k);
        proof {
            if K::obeys_eq_spec() {
                match r {
                    Some(v) => {
                        let b = self.base@[i as int]@;
                        let j = choose|j: int|
                            {
                                &&& 0 <= j < b.len()
                                &&& #[trigger] b[j].0.eq_spec(k)
                                &&& b[j].1 == *v
                                &&& forall|j2: int| 0 <= j2 < j ==> !b[j2].0.eq_spec(k)
                            };
                        let p = b[j];
                        assert(b.contains(p));
                        lemma_bucket_entries_contains(self.base@, i as int, p);
                        assert(self@.contains(p));
                    },
                    None => {},
                }
            }
        }
        r
    }

    /// All entries, as references to the stored pairs, bucket by bucket.
    /// The pairs referenced are exactly the entries.
    pub fn iter(&self) -> (r: Vec<&(K, V)>)
        requires
            self.wf(),
        ensures
            deref_pairs(r@).to_multiset() == self@,
    {
        let mut out: Vec<&(K, V)> = Vec::new();
        let mut i: usize = 0;
        while i < CAPACITY
            invariant
                self.wf(),
                i <= CAPACITY,
                deref_pairs(out@).to_multiset() == bucket_entries(self.base@.take(i as int)),
            decreases CAPACITY - i,
        {
            let ghost b = self.base@[i as int]@;
            let n: usize = self.base[i].len();
            let mut j: usize = 0;
            proof {
                assert(b.take(0) =~= Seq::<(K, V)>::empty());
                assert(deref_pairs(out@).to_multiset().add(b.take(0).to_multiset())
                    =~= deref_pairs(out@).to_multiset());
            }
            while j < n
                invariant
                    self.wf(),
                    i < CAPACITY,
                    b == self.base@[i as int]@,
                    n == b.len(),
                    j <= n,
                    deref_pairs(out@).to_multiset() == bucket_entries(
                        self.base@.take(i as int),
                    ).add(b.take(j as int).to_multiset()),
                decreases n - j,
            {
                let ghost prev = out@;
                out.push(&self.base[i][j]);
                j = j + 1;
                proof {
                    assert(deref_pairs(out@) =~= deref_pairs(prev).push(b[j - 1]));
                    assert(b.take(j as int) =~= b.take(j - 1).push(b[j - 1]));
                }
            }
            i = i + 1;
            proof {
                let t = self.base@.take(i as int);
                assert(t.drop_last() =~= self.base@.take(i - 1));
                assert(t.last()@ == b);
                assert(b.take(b.len() as int) =~= b);
            }
        }
        proof {
            assert(self.base@.take(CAPACITY as int) =~= self.base@);
        }
        out
    }
}

/// The pairs that a sequence of references points at.
pub open spec fn deref_pairs<K, V>(s: Seq<&(K, V)>) -> Seq<(K, V)> {
    s.map_values(|p: &(K, V)| *p)
}

/// The bucket index a digest selects: the digest reduced modulo the bucket
/// count.
fn bucket_index(digest: u64) -> (r: usize)
    ensures
        r == digest % (CAPACITY as u64),
        r < CAPACITY,
{
    (digest % (CAPACITY as u64)) as usize
}

} // verus!

use vstd::prelude::*;

use crate::stonks_vec::find_or_append_contents;
use crate::stonks_vec::find_or_append_slot;
use crate::stonks_vec::lemma_find_or_append_contains;
use crate::stonks_vec::lemma_find_or_append_idempotent;
use crate::stonks_vec::lemma_first_hit;
use crate::stonks_vec::StonksVec;
use std::collections::hash_map::DefaultHasher;
use std::hash::Hasher;
use vstd::std_specs::hash::DefaultHasherAdditionalSpecFns;

verus! {

/// A fixed number of append-only buckets. A value's bucket is chosen by
/// hashing the value and reducing the digest modulo the bucket count, which
/// never changes after construction; the bucket is then searched or extended
/// like a plain stable store. Slots already filled are never rewritten or
/// moved, so a (bucket, slot) pair handed out once stays valid for the
/// collection's remaining lifetime.
pub struct StonksSet {
    buckets: Vec<StonksVec>,
}

/// The bytes the router feeds to the hasher for a value: the value written
/// out in base 256, lowest digit first.
pub open spec fn value_bytes(v: u64) -> Seq<u8> {
    seq![
        (v % 256) as u8,
        ((v / 256) % 256) as u8,
        ((v / 256 / 256) % 256) as u8,
        ((v / 256 / 256 / 256) % 256) as u8,
        ((v / 256 / 256 / 256 / 256) % 256) as u8,
        ((v / 256 / 256 / 256 / 256 / 256) % 256) as u8,
        ((v / 256 / 256 / 256 / 256 / 256 / 256) % 256) as u8,
        ((v / 256 / 256 / 256 / 256 / 256 / 256 / 256) % 256) as u8,
    ]
}

/// The digest the standard hasher produces for a value's bytes: a pure
/// function of the value alone, so hashing is deterministic.
pub open spec fn hash_of(v: u64) -> u64 {
    DefaultHasher::spec_finish(seq![value_bytes(v)])
}

/// The bucket that `v` is routed to among `n` buckets.
pub open spec fn bucket_of(v: u64, n: nat) -> int
    recommends
        n > 0,
{
    hash_of(v) as int % n as int
}

/// The number of filled slots over all buckets.
pub open spec fn total_len(s: Seq<Seq<u64>>) -> nat
    decreases s.len(),
{
    if s.len() == 0 {
        0
    } else {
        total_len(s.drop_last()) + s.last().len()
    }
}

/// Whether any bucket holds a slot equal to `v`.
pub open spec fn buckets_contain(s: Seq<Seq<u64>>, v: u64) -> bool {
    exists|b: int| 0 <= b < s.len() && s[b].contains(v)
}

/// Every filled slot sits in the bucket its value hashes to.
pub open spec fn routed(s: Seq<Seq<u64>>) -> bool {
    forall|b: int, j: int|
        #![trigger s[b][j]]
        0 <= b < s.len() && 0 <= j < s[b].len() ==> bucket_of(s[b][j], s.len()) == b
}

/// The buckets after a get-or-insert of `v`: only the routed bucket changes,
/// by a find-or-append of `v`.
pub open spec fn after_get_or_insert(s: Seq<Seq<u64>>, v: u64) -> Seq<Seq<u64>>
    recommends
        s.len() > 0,
{
    s.update(bucket_of(v, s.len()), find_or_append_contents(s[bucket_of(v, s.len())], v))
}

/// The handle a get-or-insert of `v` hands back: the routed bucket, and the
/// find-or-append slot within it.
pub open spec fn get_or_insert_handle(s: Seq<Seq<u64>>, v: u64) -> (int, int)
    recommends
        s.len() > 0,
{
    (bucket_of(v, s.len()), find_or_append_slot(s[bucket_of(v, s.len())], v))
}

/// Law: routing is deterministic. For a fixed bucket count, equal values are
/// routed to the same bucket on every call, and that bucket is in range.
pub proof fn lemma_bucket_deterministic(v1: u64, v2: u64, n: nat)
    requires
        v1 == v2,
        n > 0,
    ensures
        bucket_of(v1, n) == bucket_of(v2, n),
        0 <= bucket_of(v1, n) < n,
{
}

/// Law: get-or-insert is idempotent. Repeating it with an equal value leaves
/// every bucket unchanged and hands back the same (bucket, slot) handle.
pub proof fn lemma_get_or_insert_idempotent(s: Seq<Seq<u64>>, v: u64)
    requires
        s.len() > 0,
    ensures
        after_get_or_insert(after_get_or_insert(s, v), v) == after_get_or_insert(s, v),
        get_or_insert_handle(after_get_or_insert(s, v), v) == get_or_insert_handle(s, v),
{
    let b = bucket_of(v, s.len());
    let s1 = after_get_or_insert(s, v);
    lemma_find_or_append_idempotent(s[b], v);
    lemma_find_or_append_contains(s[b], v);
    assert(s1[b] == find_or_append_contents(s[b], v));
    assert(after_get_or_insert(s1, v) =~= s1);
}

/// Replacing one bucket changes the total by the difference of that bucket's
/// lengths.
proof fn lemma_total_len_update(s: Seq<Seq<u64>>, b: int, t: Seq<u64>)
    requires
        0 <= b < s.len(),
    ensures
        total_len(s.update(b, t)) == total_len(s) - s[b].len() + t.len(),
    decreases s.len(),
{
    let s2 = s.update(b, t);
    if b == s.len() - 1 {
        assert(s2.drop_last() =~= s.drop_last());
        assert(s2.last() == t);
    } else {
        assert(s2.drop_last() =~= s.drop_last().update(b, t));
        assert(s2.last() == s.last());
        lemma_total_len_update(s.drop_last(), b, t);
    }
}

/// One more bucket into a running sum.
proof fn lemma_total_len_take_step(s: Seq<Seq<u64>>, i: int)
    requires
        0 <= i < s.len(),
    ensures
        total_len(s.take(i + 1)) == total_len(s.take(i)) + s[i].len(),
{
    assert(s.take(i + 1).drop_last() =~= s.take(i));
    assert(s.take(i + 1).last() == s[i]);
}

/// A sequence of empty buckets holds nothing.
proof fn lemma_total_len_all_empty(s: Seq<Seq<u64>>)
    requires
        forall|b: int| 0 <= b < s.len() ==> s[b] == Seq::<u64>::empty(),
    ensures
        total_len(s) == 0,
    decreases s.len(),
{
    if s.len() > 0 {
        lemma_total_len_all_empty(s.drop_last());
    }
}

/// A partial sum never exceeds the total.
proof fn lemma_total_len_prefix_bound(s: Seq<Seq<u64>>, i: int)
    requires
        0 <= i <= s.len(),
    ensures
        total_len(s.take(i)) <= total_len(s),
    decreases s.len() - i,
{
    if i == s.len() {
        assert(s.take(i) =~= s);
    } else {
        lemma_total_len_take_step(s, i);
        lemma_total_len_prefix_bound(s, i + 1);
    }
}

/// Under routing, membership anywhere equals membership in the routed bucket.
proof fn lemma_routed_membership(s: Seq<Seq<u64>>, v: u64)
    requires
        routed(s),
        0 < s.len(),
    ensures
        buckets_contain(s, v) <==> s[bucket_of(v, s.len())].contains(v),
{
    if buckets_contain(s, v) {
        let bb = choose|bb: int| 0 <= bb < s.len() && s[bb].contains(v);
        let j = choose|j: int| 0 <= j < s[bb].len() && s[bb][j] == v;
        assert(bucket_of(s[bb][j], s.len()) == bb);
    }
    if s[bucket_of(v, s.len())].contains(v) {
        assert(0 <= bucket_of(v, s.len()) < s.len());
    }
}

impl View for StonksSet {
    type V = Seq<Seq<u64>>;

    closed spec fn view(&self) -> Seq<Seq<u64>> {
        self.buckets@.map_values(|bucket: StonksVec| bucket@)
    }
}

impl StonksSet {
    /// Validity: at least one bucket, a total count that fits the machine,
    /// and every filled slot sitting in the bucket its value hashes to.
    pub open spec fn wf(&self) -> bool {
        &&& 0 < self@.len()
        &&& total_len(self@) <= usize::MAX
        &&& routed(self@)
    }

    /// Create `capacity` empty buckets. The bucket count is fixed for the
    /// collection's lifetime; zero buckets is a configuration error and is
    /// rejected before anything is built.
    pub fn with_capacity(capacity: usize) -> (r: Self)
        requires
            capacity > 0,
        ensures
            r.wf(),
            r@.len() == capacity,
            total_len(r@) == 0,
            forall|b: int| 0 <= b < capacity ==> r@[b] == Seq::<u64>::empty(),
    {
        let mut buckets: Vec<StonksVec> = Vec::with_capacity(capacity);
        let mut i: usize = 0;
        while i < capacity
            invariant
                i <= capacity,
                buckets@.len() == i,
                forall|b: int| 0 <= b < i ==> buckets@[b]@ == Seq::<u64>::empty(),
            decreases capacity - i,
        {
            buckets.push(StonksVec::new());
            i = i + 1;
        }
        let r = StonksSet { buckets };
        proof {
            lemma_total_len_all_empty(r@);
        }
        r
    }

    /// The number of values stored, summed over the buckets.
    pub fn len(&self) -> (n: usize)
        requires
            self.wf(),
        ensures
            n == total_len(self@),
    {
        let mut n: usize = 0;
        let mut i: usize = 0;
        proof {
            assert(self@.take(0) =~= Seq::<Seq<u64>>::empty());
        }
        while i < self.buckets.len()
            invariant
                self.wf(),
                i <= self.buckets.len(),
                self@.len() == self.buckets@.len(),
                n == total_len(self@.take(i as int)),
            decreases self.buckets.len() - i,
        {
            proof {
                lemma_total_len_take_step(self@, i as int);
                lemma_total_len_prefix_bound(self@, i as int + 1);
            }
            n = n + self.buckets[i].len();
            i = i + 1;
        }
        proof {
            assert(self@.take(self@.len() as int) =~= self@);
        }
        n
    }

    /// The standard hasher's digest for a value's bytes. The bytes depend on
    /// the value alone, so the digest does too.
    fn hash_value(value: &u64) -> (h: u64)
        ensures
            h == hash_of(*value),
    {
        let mut bytes: Vec<u8> = Vec::new();
        let mut x: u64 = *value;
        bytes.push((x % 256) as u8);
        x = x / 256;
        bytes.push((x % 256) as u8);
        x = x / 256;
        bytes.push((x % 256) as u8);
        x = x / 256;
        bytes.push((x % 256) as u8);
        x = x / 256;
        bytes.push((x % 256) as u8);
        x = x / 256;
        bytes.push((x % 256) as u8);
        x = x / 256;
        bytes.push((x % 256) as u8);
        x = x / 256;
        bytes.push((x % 256) as u8);
        proof {
            assert(bytes@ =~= value_bytes(*value));
        }
        let mut hasher = DefaultHasher::new();
        hasher.write(bytes.as_slice());
        proof {
            assert(hasher@ =~= seq![value_bytes(*value)]);
        }
        hasher.finish()
    }

    /// The bucket that `*value` is routed to.
    fn bucket_index(&self, value: &u64) -> (b: usize)
        requires
            self.wf(),
        ensures
            b == bucket_of(*value, self@.len()),
            b < self.buckets.len(),
            self@.len() == self.buckets@.len(),
    {
        let h = Self::hash_value(value);
        let n = self.buckets.len() as u64;
        (h % n) as usize
    }

    /// A reference to the stored value equal to `*value`, or `None` when no
    /// bucket holds one. Only the routed bucket is searched; routing makes
    /// that equivalent to searching everywhere.
    pub fn get(&self, value: &u64) -> (r: Option<&u64>)
        requires
            self.wf(),
        ensures
            match r {
                Some(p) => *p == *value && buckets_contain(self@, *value),
                None => !buckets_contain(self@, *value),
            },
    {
        let b = self.bucket_index(value);
        proof {
            lemma_routed_membership(self@, *value);
        }
        self.buckets[b].get(value)
    }

    /// Store `value` in its routed bucket, returning its (bucket, slot)
    /// handle. Duplicates are kept: repeated inserts of equal values fill
    /// distinct slots. Every slot filled before keeps its content and its
    /// position, so earlier handles stay valid.
    pub fn insert(&mut self, value: u64) -> (r: (usize, usize))
        requires
            old(self).wf(),
            total_len(old(self)@) < usize::MAX,
        ensures
            final(self).wf(),
            final(self)@.len() == old(self)@.len(),
            r.0 == bucket_of(value, old(self)@.len()),
            r.1 == old(self)@[r.0 as int].len(),
            final(self)@ == old(self)@.update(
                r.0 as int,
                old(self)@[r.0 as int].push(value),
            ),
            total_len(final(self)@) == total_len(old(self)@) + 1,
            final(self)@[r.0 as int][r.1 as int] == value,
            buckets_contain(final(self)@, value),
            forall|b: int, j: int|
                #![trigger old(self)@[b][j]]
                0 <= b < old(self)@.len() && 0 <= j < old(self)@[b].len() ==> final(self)@[b][j]
                    == old(self)@[b][j],
    {
        let ghost pre = self@;
        let b = self.bucket_index(&value);
        let bucket = &mut self.buckets[b];
        let i = bucket.insert(value);
        proof {
            let s2 = pre.update(b as int, pre[b as int].push(value));
            assert(self@ =~= s2);
            lemma_total_len_update(pre, b as int, pre[b as int].push(value));
            assert(s2[b as int][i as int] == value);
            assert(s2[b as int].contains(value));
            assert(buckets_contain(s2, value));
            assert forall|bb: int, j: int|
                #![trigger s2[bb][j]]
                0 <= bb < s2.len() && 0 <= j < s2[bb].len() implies bucket_of(s2[bb][j], s2.len())
                == bb by {
                if bb != b as int || j < pre[bb].len() {
                    assert(s2[bb][j] == pre[bb][j]);
                    assert(bucket_of(pre[bb][j], pre.len()) == bb);
                } else {
                    assert(s2[bb][j] == value);
                }
            }
        }
        (b, i)
    }

    /// Return the handle of the stored value equal to `value`, first storing
    /// `value` in its routed bucket when no bucket holds one. The bucket is
    /// hashed once and used for both the lookup and the append. Every slot
    /// filled before keeps its content and its position.
    pub fn get_or_insert(&mut self, value: u64) -> (r: (usize, usize))
        requires
            old(self).wf(),
            total_len(old(self)@) < usize::MAX,
        ensures
            final(self).wf(),
            final(self)@.len() == old(self)@.len(),
            final(self)@ == after_get_or_insert(old(self)@, value),
            (r.0 as int, r.1 as int) == get_or_insert_handle(old(self)@, value),
            final(self)@[r.0 as int][r.1 as int] == value,
            buckets_contain(final(self)@, value),
            buckets_contain(old(self)@, value) ==> final(self)@ == old(self)@,
            !buckets_contain(old(self)@, value) ==> total_len(final(self)@) == total_len(
                old(self)@,
            ) + 1,
            forall|b: int, j: int|
                #![trigger old(self)@[b][j]]
                0 <= b < old(self)@.len() && 0 <= j < old(self)@[b].len() ==> final(self)@[b][j]
                    == old(self)@[b][j],
    {
        let ghost pre = self@;
        let b = self.bucket_index(&value);
        let bucket = &mut self.buckets[b];
        let i = bucket.get_or_insert(value);
        proof {
            let s2 = pre.update(b as int, find_or_append_contents(pre[b as int], value));
            assert(self@ =~= s2);
            lemma_routed_membership(pre, value);
            lemma_first_hit(pre[b as int], value);
            lemma_total_len_update(pre, b as int, find_or_append_contents(pre[b as int], value));
            if pre[b as int].contains(value) {
                assert(s2 =~= pre);
            }
            assert(s2[b as int][i as int] == value);
            assert(s2[b as int].contains(value));
            assert(buckets_contain(s2, value));
            assert forall|bb: int, j: int|
                #![trigger s2[bb][j]]
                0 <= bb < s2.len() && 0 <= j < s2[bb].len() implies bucket_of(s2[bb][j], s2.len())
                == bb by {
                if bb != b as int || j < pre[bb].len() {
                    assert(s2[bb][j] == pre[bb][j]);
                    assert(bucket_of(pre[bb][j], pre.len()) == bb);
                } else {
                    assert(s2[bb][j] == value);
                }
            }
        }
        (b, i)
    }

    /// Read the slot named by a handle that `insert` or `get_or_insert`
    /// handed out. A bucket or slot out of range is an out-of-bounds request
    /// and is reported as `None`, never truncated.
    pub fn at(&self, bucket: usize, slot: usize) -> (r: Option<&u64>)
        ensures
            match r {
                Some(p) => bucket < self@.len() && slot < self@[bucket as int].len() && *p
                    == self@[bucket as int][slot as int],
                None => bucket >= self@.len() || slot >= self@[bucket as int].len(),
            },
    {
        if bucket < self.buckets.len() {
            self.buckets[bucket].at(slot)
        } else {
            None
        }
    }

    /// Whether some bucket holds a value equal to `*value`.
    pub fn contains(&self, value: &u64) -> (r: bool)
        requires
            self.wf(),
        ensures
            r == buckets_contain(self@, *value),
    {
        let b = self.bucket_index(value);
        proof {
            lemma_routed_membership(self@, *value);
        }
        self.buckets[b].contains(value)
    }
}

} // verus!

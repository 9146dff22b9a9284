use vstd::prelude::*;

verus! {

/// An append-only store of values. A slot, once filled, is never rewritten,
/// resized or moved for the store's remaining lifetime, so the slot index
/// handed back by an append is a permanently valid handle to the value.
pub struct StonksVec {
    data: Vec<u64>,
}

/// The smallest index at which `v` occurs in `s`, or `s.len()` when `s` does
/// not contain `v`.
pub open spec fn first_hit(s: Seq<u64>, v: u64) -> int
    decreases s.len(),
{
    if s.len() == 0 {
        0
    } else if s[0] == v {
        0
    } else {
        1 + first_hit(s.skip(1), v)
    }
}

/// The store's contents after a find-or-append of `v`: unchanged when `v` is
/// already present, extended by one slot holding `v` otherwise.
pub open spec fn find_or_append_contents(s: Seq<u64>, v: u64) -> Seq<u64> {
    if s.contains(v) {
        s
    } else {
        s.push(v)
    }
}

/// The slot a find-or-append of `v` hands back: the first slot holding `v`
/// when present, the freshly filled slot at the old end otherwise. Both cases
/// coincide with `first_hit` over the old contents.
pub open spec fn find_or_append_slot(s: Seq<u64>, v: u64) -> int {
    first_hit(s, v)
}

/// `first_hit` is what its name says: it lies in range exactly when the value
/// occurs, it points at an occurrence, and no earlier slot holds the value.
pub proof fn lemma_first_hit(s: Seq<u64>, v: u64)
    ensures
        0 <= first_hit(s, v) <= s.len(),
        s.contains(v) ==> first_hit(s, v) < s.len() && s[first_hit(s, v)] == v,
        !s.contains(v) ==> first_hit(s, v) == s.len(),
        forall|j: int| 0 <= j < first_hit(s, v) ==> s[j] != v,
    decreases s.len(),
{
    if s.len() == 0 {
    } else if s[0] == v {
        assert(s.contains(v));
    } else {
        let t = s.skip(1);
        lemma_first_hit(t, v);
        assert(forall|j: int| 0 <= j < t.len() ==> t[j] == s[j + 1]);
        if s.contains(v) {
            let i = choose|i: int| 0 <= i < s.len() && s[i] == v;
            assert(t[i - 1] == v);
            assert(t.contains(v));
        }
        if t.contains(v) {
            let i = choose|i: int| 0 <= i < t.len() && t[i] == v;
            assert(s[i + 1] == v);
            assert(s.contains(v));
        }
        assert(forall|j: int| 0 < j < first_hit(s, v) ==> t[j - 1] != v && s[j] == t[j - 1]);
    }
}

/// Any slot that holds `v` with no earlier slot holding `v` is `first_hit`.
pub proof fn lemma_first_hit_unique(s: Seq<u64>, v: u64, i: int)
    requires
        0 <= i < s.len(),
        s[i] == v,
        forall|j: int| 0 <= j < i ==> s[j] != v,
    ensures
        i == first_hit(s, v),
{
    assert(s.contains(v));
    lemma_first_hit(s, v);
}

/// Law: find-or-append is idempotent. Repeating it with an equal value leaves
/// the contents unchanged and hands back the same slot, so the two handles
/// name the same stored element.
pub proof fn lemma_find_or_append_idempotent(s: Seq<u64>, v: u64)
    ensures
        find_or_append_contents(find_or_append_contents(s, v), v) == find_or_append_contents(s, v),
        find_or_append_slot(find_or_append_contents(s, v), v) == find_or_append_slot(s, v),
{
    lemma_first_hit(s, v);
    if !s.contains(v) {
        let s1 = s.push(v);
        assert(s1[s.len() as int] == v);
        assert(s1.contains(v));
        lemma_first_hit_unique(s1, v, s.len() as int);
    }
}

/// Law: the result of find-or-append always contains the value.
pub proof fn lemma_find_or_append_contains(s: Seq<u64>, v: u64)
    ensures
        find_or_append_contents(s, v).contains(v),
{
    if !s.contains(v) {
        let s1 = s.push(v);
        assert(s1[s.len() as int] == v);
        assert(s1.contains(v));
    }
}

impl View for StonksVec {
    type V = Seq<u64>;

    closed spec fn view(&self) -> Seq<u64> {
        self.data@
    }
}

impl StonksVec {
    /// Create an empty store.
    pub fn new() -> (r: Self)
        ensures
            r@ == Seq::<u64>::empty(),
    {
        StonksVec { data: Vec::new() }
    }

    /// Create an empty store sized for about `capacity` values. The capacity
    /// is a hint only: the contents start empty either way.
    pub fn with_capacity(capacity: usize) -> (r: Self)
        ensures
            r@ == Seq::<u64>::empty(),
    {
        StonksVec { data: Vec::with_capacity(capacity) }
    }

    /// The number of filled slots.
    pub fn len(&self) -> (n: usize)
        ensures
            n == self@.len(),
    {
        self.data.len()
    }

    /// Read the slot named by `index`. An index at or past the length is an
    /// out-of-bounds request and is reported as `None`, never truncated.
    pub fn at(&self, index: usize) -> (r: Option<&u64>)
        ensures
            match r {
                Some(p) => index < self@.len() && *p == self@[index as int],
                None => index >= self@.len(),
            },
    {
        if index < self.data.len() {
            Some(&self.data[index])
        } else {
            None
        }
    }

    /// The first slot holding a value equal to `*value`, if any.
    fn find_slot(&self, value: &u64) -> (r: Option<usize>)
        ensures
            match r {
                Some(i) => {
                    &&& i == first_hit(self@, *value)
                    &&& i < self@.len()
                    &&& self@[i as int] == *value
                    &&& self@.contains(*value)
                },
                None => !self@.contains(*value),
            },
    {
        let mut i: usize = 0;
        while i < self.data.len()
            invariant
                i <= self.data.len(),
                forall|j: int| 0 <= j < i ==> self@[j] != *value,
            decreases self.data.len() - i,
        {
            if self.data[i] == *value {
                proof {
                    lemma_first_hit_unique(self@, *value, i as int);
                }
                return Some(i);
            }
            i = i + 1;
        }
        None
    }

    /// A reference to the first stored value equal to `*value`, or `None`
    /// when no stored value equals it.
    pub fn get(&self, value: &u64) -> (r: Option<&u64>)
        ensures
            match r {
                Some(p) => *p == *value && self@.contains(*value),
                None => !self@.contains(*value),
            },
    {
        match self.find_slot(value) {
            Some(i) => self.at(i),
            None => None,
        }
    }

    /// Append `value`, returning the index of its new slot. Every slot that
    /// was filled before keeps its content, so earlier handles stay valid.
    pub fn insert(&mut self, value: u64) -> (i: usize)
        ensures
            final(self)@ == old(self)@.push(value),
            final(self)@.len() == old(self)@.len() + 1,
            i == old(self)@.len(),
            final(self)@[i as int] == value,
            final(self)@.contains(value),
            forall|j: int| 0 <= j < old(self)@.len() ==> final(self)@[j] == old(self)@[j],
    {
        let i = self.data.len();
        self.data.push(value);
        i
    }

    /// Return the slot of the first stored value equal to `value`, appending
    /// `value` first when no such slot exists. Every slot that was filled
    /// before keeps its content, so earlier handles stay valid.
    pub fn get_or_insert(&mut self, value: u64) -> (i: usize)
        ensures
            final(self)@ == find_or_append_contents(old(self)@, value),
            i == find_or_append_slot(old(self)@, value),
            i < final(self)@.len(),
            final(self)@[i as int] == value,
            final(self)@.contains(value),
            old(self)@.contains(value) ==> final(self)@ == old(self)@,
            !old(self)@.contains(value) ==> final(self)@.len() == old(self)@.len() + 1,
            forall|j: int| 0 <= j < old(self)@.len() ==> final(self)@[j] == old(self)@[j],
    {
        proof {
            lemma_first_hit(old(self)@, value);
        }
        match self.find_slot(&value) {
            Some(i) => i,
            None => self.insert(value),
        }
    }

    /// Whether some stored value equals `*value`.
    pub fn contains(&self, value: &u64) -> (r: bool)
        ensures
            r == self@.contains(*value),
    {
        match self.find_slot(value) {
            Some(_) => true,
            None => false,
        }
    }
}

} // verus!

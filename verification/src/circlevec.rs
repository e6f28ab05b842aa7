//! Fixed-capacity circular history buffer.
//!
//! Every metric stream keeps its history in a [`CircleVec`]: a buffer of
//! fixed capacity that overwrites its oldest slot on each write and reads
//! out in chronological order.  The view of a buffer is the sequence of
//! its elements, oldest first, so `add` drops the oldest element and
//! appends the new one, and `read` returns exactly that sequence.

use vstd::prelude::*;

verus! {

/// The storage and write cursor of a [`CircleVec`].
pub struct InnerVec<T> {
    vec: Vec<T>,
    pointer: usize,
}

/// Fixed-capacity circular history buffer.
///
/// Created once with a capacity of at least one and never resized.  The
/// buffer starts pre-filled with a caller-supplied default value, so a
/// read always yields exactly `capacity` elements; leading fill values
/// stand for the time before the first writes.  A buffer shared between
/// writers and readers sits behind the surrounding program's lock; the
/// contracts here describe each serialized operation, and `read` hands
/// out a fresh copy, never the live storage.
pub struct CircleVec<T> {
    capacity: usize,
    inner_vec: InnerVec<T>,
}

impl<T> View for CircleVec<T> {
    type V = Seq<T>;

    /// The elements in chronological order, oldest first: the slots from
    /// the write cursor to the end, then the slots before the cursor.
    closed spec fn view(&self) -> Seq<T> {
        self.inner_vec.vec@.subrange(
            self.inner_vec.pointer as int,
            self.inner_vec.vec@.len() as int,
        ) + self.inner_vec.vec@.subrange(0, self.inner_vec.pointer as int)
    }
}

impl<T> CircleVec<T> {
    #[verifier::type_invariant]
    closed spec fn wf(self) -> bool {
        &&& 1 <= self.capacity
        &&& self.inner_vec.vec@.len() == self.capacity
        &&& self.inner_vec.pointer < self.capacity
    }
}

impl<T: Copy> CircleVec<T> {
    /// A fresh buffer of the given capacity, every slot holding `fill`.
    pub fn new(capacity: usize, fill: T) -> (r: Self)
        requires
            1 <= capacity,
        ensures
            r@ == Seq::new(capacity as nat, |i: int| fill),
    {
        let mut vec: Vec<T> = Vec::new();
        let mut i: usize = 0;
        while i < capacity
            invariant
                i <= capacity,
                vec@ == Seq::new(i as nat, |j: int| fill),
            decreases capacity - i,
        {
            vec.push(fill);
            proof {
                assert(vec@ =~= Seq::new((i + 1) as nat, |j: int| fill));
            }
            i = i + 1;
        }
        let r = CircleVec { capacity, inner_vec: InnerVec { vec, pointer: 0 } };
        proof {
            assert(r@ =~= Seq::new(capacity as nat, |i: int| fill));
        }
        r
    }

    /// Overwrites the oldest slot with `value`: the chronological view
    /// drops its oldest element and gains `value` as the newest.
    pub fn add(&mut self, value: T)
        ensures
            final(self)@ == old(self)@.drop_first().push(value),
            final(self)@.len() == old(self)@.len(),
    {
        proof {
            use_type_invariant(&*self);
        }
        let p = self.inner_vec.pointer;
        self.inner_vec.vec[p] = value;
        if p + 1 >= self.capacity {
            self.inner_vec.pointer = 0;
        } else {
            self.inner_vec.pointer = p + 1;
        }
        proof {
            assert(self@ =~= old(self)@.drop_first().push(value));
        }
    }

    /// A fresh copy of all elements, oldest first.
    pub fn read(&self) -> (out: Vec<T>)
        ensures
            out@ == self@,
    {
        proof {
            use_type_invariant(self);
        }
        let n = self.inner_vec.vec.len();
        let mut out: Vec<T> = Vec::new();
        let mut i: usize = self.inner_vec.pointer;
        while i < n
            invariant
                self.inner_vec.pointer <= i <= n,
                n == self.inner_vec.vec@.len(),
                out@ == self.inner_vec.vec@.subrange(self.inner_vec.pointer as int, i as int),
            decreases n - i,
        {
            out.push(self.inner_vec.vec[i]);
            proof {
                assert(out@ =~= self.inner_vec.vec@.subrange(
                    self.inner_vec.pointer as int,
                    (i + 1) as int,
                ));
            }
            i = i + 1;
        }
        let mut j: usize = 0;
        while j < self.inner_vec.pointer
            invariant
                j <= self.inner_vec.pointer,
                self.inner_vec.pointer <= n,
                n == self.inner_vec.vec@.len(),
                out@ == self.inner_vec.vec@.subrange(self.inner_vec.pointer as int, n as int)
                    + self.inner_vec.vec@.subrange(0, j as int),
            decreases self.inner_vec.pointer - j,
        {
            out.push(self.inner_vec.vec[j]);
            proof {
                assert(out@ =~= self.inner_vec.vec@.subrange(
                    self.inner_vec.pointer as int,
                    n as int,
                ) + self.inner_vec.vec@.subrange(0, (j + 1) as int));
            }
            j = j + 1;
        }
        out
    }

    /// The fixed capacity, which is also the length of every read.
    pub fn capacity(&self) -> (c: usize)
        ensures
            c as nat == self@.len(),
    {
        proof {
            use_type_invariant(self);
        }
        self.capacity
    }
}

/// The chronological view after adding the values of `vs` in order,
/// starting from view `s0`: each add drops the oldest element and
/// appends the next value.
pub open spec fn after_adds<T>(s0: Seq<T>, vs: Seq<T>) -> Seq<T>
    decreases vs.len(),
{
    if vs.len() == 0 {
        s0
    } else {
        after_adds(s0.drop_first().push(vs[0]), vs.drop_first())
    }
}

/// Adding a sequence of values shifts the whole history: the result is
/// the concatenation of the old view and the added values, with the
/// oldest `vs.len()` elements dropped.
pub proof fn lemma_after_adds_append<T>(s0: Seq<T>, vs: Seq<T>)
    requires
        s0.len() >= 1,
    ensures
        after_adds(s0, vs) == (s0 + vs).skip(vs.len() as int),
    decreases vs.len(),
{
    if vs.len() == 0 {
        assert((s0 + vs).skip(0) =~= s0);
    } else {
        let s1 = s0.drop_first().push(vs[0]);
        lemma_after_adds_append(s1, vs.drop_first());
        assert(s1 + vs.drop_first() =~= (s0 + vs).drop_first());
        assert((s0 + vs).drop_first().skip(vs.len() - 1) =~= (s0 + vs).skip(vs.len() as int));
    }
}

/// Buffer rotation correctness: after at least capacity-many adds, the
/// buffer holds exactly the most recent values, in chronological order
/// with the oldest of them first, whatever it held before.
pub proof fn lemma_rotation_correctness<T>(s0: Seq<T>, vs: Seq<T>)
    requires
        s0.len() >= 1,
        vs.len() >= s0.len(),
    ensures
        after_adds(s0, vs) == vs.skip(vs.len() - s0.len()),
{
    lemma_after_adds_append(s0, vs);
    assert((s0 + vs).skip(vs.len() as int) =~= vs.skip(vs.len() - s0.len()));
}

} // verus!

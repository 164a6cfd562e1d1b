//! A fixed-capacity ring buffer of audio samples that keeps the most recent writes.
use vstd::prelude::*;

verus! {

/// Ring buffer holding the last `capacity` samples written.
///
/// Its view is the whole history of samples written, oldest first; the buffer holds
/// the last `capacity` of them.
pub struct RingBuffer<T> {
    buffer: Vec<T>,
    capacity: usize,
    write_pos: usize,
    history: Ghost<Seq<T>>,
}

impl<T> View for RingBuffer<T> {
    type V = Seq<T>;

    closed spec fn view(&self) -> Seq<T> {
        self.history@
    }
}

/// The number of most recent samples a read of `count` returns: no more than were
/// written, than were asked for, or than the buffer holds.
pub open spec fn spec_available(written: int, count: int, capacity: int) -> int {
    let a = if written < count { written } else { count };
    if a < capacity {
        a
    } else {
        capacity
    }
}

/// Reading back at most `capacity` samples right after writing them returns exactly
/// those samples.
pub proof fn lemma_read_after_write<T>(history: Seq<T>, samples: Seq<T>, count: int, capacity: int)
    requires
        0 <= count <= samples.len(),
        count <= capacity,
    ensures
        ({
            let h = history + samples;
            let a = spec_available(h.len() as int, count, capacity);
            &&& a == count
            &&& h.subrange(h.len() - a, h.len() as int) == samples.subrange(samples.len() - count, samples.len() as int)
        }),
{
    let h = history + samples;
    assert(h.subrange(h.len() - count, h.len() as int) =~= samples.subrange(samples.len() - count, samples.len() as int));
}

/// Two positions less than `m` apart fall in different slots.
proof fn lemma_slots_distinct(a: int, b: int, m: int)
    requires
        0 <= a < b < a + m,
        m > 0,
    ensures
        a % m != b % m,
{
    vstd::arithmetic::div_mod::lemma_fundamental_div_mod(a, m);
    vstd::arithmetic::div_mod::lemma_fundamental_div_mod(b, m);
    let qa = a / m;
    let qb = b / m;
    if a % m == b % m {
        assert(b - a == m * (qb - qa)) by (nonlinear_arith)
            requires
                a == m * qa + a % m,
                b == m * qb + b % m,
                a % m == b % m,
        ;
        if qb - qa >= 1 {
            assert(m * (qb - qa) >= m) by (nonlinear_arith)
                requires qb - qa >= 1, m > 0;
        } else {
            assert(m * (qb - qa) <= 0) by (nonlinear_arith)
                requires qb - qa <= 0, m > 0;
        }
    }
}

impl<T: Copy + Default> RingBuffer<T> {
    /// The buffer holds the last `capacity` samples of the history, each in the slot of
    /// its position modulo the capacity.
    pub closed spec fn wf(&self) -> bool {
        &&& self.buffer@.len() == self.capacity
        &&& self.history@.len() == self.write_pos
        &&& forall|j: int|
            #![trigger self.history@[j]]
            self.write_pos - self.capacity <= j < self.write_pos && 0 <= j ==> self.buffer@[j
                % self.capacity as int] == self.history@[j]
    }

    pub closed spec fn spec_capacity(&self) -> usize {
        self.capacity
    }

    /// An empty buffer of `capacity` slots.
    pub fn new(capacity: usize) -> (rb: Self)
        ensures
            rb.wf(),
            rb@ == Seq::<T>::empty(),
            rb.spec_capacity() == capacity,
    {
        let mut buffer: Vec<T> = Vec::new();
        let mut k: usize = 0;
        while k < capacity
            invariant
                k <= capacity,
                buffer@.len() == k,
            decreases capacity - k,
        {
            buffer.push(T::default());
            k += 1;
        }
        RingBuffer { buffer, capacity, write_pos: 0, history: Ghost(Seq::empty()) }
    }

    /// Number of slots.
    pub fn capacity(&self) -> (c: usize)
        ensures
            c == self.spec_capacity(),
    {
        self.capacity
    }

    /// Number of samples written so far.
    pub fn write_position(&self) -> (p: usize)
        requires
            self.wf(),
        ensures
            p == self@.len(),
    {
        self.write_pos
    }

    /// Appends `samples` to the history; the oldest samples are overwritten once more
    /// than `capacity` were written.
    pub fn write(&mut self, samples: &[T])
        requires
            old(self).wf(),
            old(self)@.len() + samples@.len() <= usize::MAX,
            old(self).spec_capacity() > 0 || samples@.len() == 0,
        ensures
            final(self).wf(),
            final(self)@ == old(self)@ + samples@,
            final(self).spec_capacity() == old(self).spec_capacity(),
    {
        let pos = self.write_pos;
        let ghost h0 = self.history@;
        let ghost cap0 = self.capacity;
        let mut i: usize = 0;
        while i < samples.len()
            invariant
                i <= samples@.len(),
                pos == h0.len(),
                pos + samples@.len() <= usize::MAX,
                self.capacity > 0 || samples@.len() == 0,
                self.write_pos == pos + i,
                self.capacity == cap0,
                self.history@ == h0 + samples@.take(i as int),
                self.wf(),
            decreases samples.len() - i,
        {
            let idx = (pos + i) % self.capacity;
            let ghost cap = self.capacity as int;
            let ghost old_buf = self.buffer@;
            let ghost old_hist = self.history@;
            let ghost p = (pos + i) as int;
            self.buffer.set(idx, samples[i]);
            self.history = Ghost(self.history@.push(samples@[i as int]));
            self.write_pos = pos + i + 1;
            i += 1;
            proof {
                assert(samples@.take(i as int) =~= samples@.take(i - 1).push(samples@[i - 1]));
                assert(self.history@ =~= h0 + samples@.take(i as int));
                assert forall|j: int|
                    #![trigger self.history@[j]]
                    self.write_pos - self.capacity <= j < self.write_pos && 0 <= j implies self.buffer@[j
                        % self.capacity as int] == self.history@[j] by {
                    if j == p {
                    } else {
                        lemma_slots_distinct(j, p, cap);
                        assert(old_hist[j] == self.history@[j]);
                        assert(old_buf[j % cap] == old_hist[j]);
                    }
                }
            }
        }
        assert(samples@.take(i as int) =~= samples@);
        assert(cap0 == old(self).spec_capacity());
    }

    /// The most recent `count` samples, oldest first: fewer when fewer were written or
    /// the buffer holds fewer.
    pub fn read_latest(&self, count: usize) -> (r: Vec<T>)
        requires
            self.wf(),
        ensures
            r@ == self@.subrange(
                self@.len() - spec_available(self@.len() as int, count as int, self.spec_capacity() as int),
                self@.len() as int,
            ),
    {
        let pos = self.write_pos;
        let a = if pos < count { pos } else { count };
        let available = if a < self.capacity { a } else { self.capacity };
        let mut result: Vec<T> = Vec::new();
        if available == 0 {
            assert(result@ =~= self@.subrange(pos as int, pos as int));
            return result;
        }
        let start = pos - available;
        let mut i: usize = 0;
        while i < available
            invariant
                self.wf(),
                pos == self.write_pos,
                0 < available <= self.capacity,
                available <= pos,
                start == pos - available,
                i <= available,
                result@ == self@.subrange(start as int, start + i),
            decreases available - i,
        {
            let idx = (start + i) % self.capacity;
            assert(self.buffer@[idx as int] == self.history@[(start + i) as int]);
            result.push(self.buffer[idx]);
            i += 1;
            assert(result@ =~= self@.subrange(start as int, start + i));
        }
        result
    }
}

} // verus!

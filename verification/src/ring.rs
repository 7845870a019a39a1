//! Fixed-capacity circular history buffer: once at capacity, each push
//! overwrites the logically oldest element. Iteration and indexing always
//! run oldest to newest, regardless of the internal wrap position.

use vstd::prelude::*;

use crate::util::{spec_dec, string_push, u64_dec};

verus! {

/// What one push does to the logical contents of a buffer of capacity
/// `cap`: appends while below capacity, otherwise drops the oldest
/// element first. A zero-capacity buffer ignores the push.
pub open spec fn push_model<T>(s: Seq<T>, cap: nat, e: T) -> Seq<T> {
    if cap == 0 {
        s
    } else if s.len() < cap {
        s.push(e)
    } else {
        s.drop_first().push(e)
    }
}

/// The logical contents of a buffer of capacity `cap` after pushing the
/// whole sequence `pushed`: its last `min(len, cap)` elements, in order.
pub open spec fn recent<T>(pushed: Seq<T>, cap: nat) -> Seq<T> {
    if pushed.len() <= cap {
        pushed
    } else {
        pushed.skip(pushed.len() - cap)
    }
}

/// After any number of pushes the buffer holds `min(N, capacity)`
/// elements: exactly the most recent ones, in push order.
pub proof fn lemma_recent_spec<T>(pushed: Seq<T>, cap: nat)
    ensures
        recent(pushed, cap).len() == if pushed.len() <= cap {
            pushed.len()
        } else {
            cap
        },
        forall|i: int|
            0 <= i < recent(pushed, cap).len() ==> recent(pushed, cap)[i] == pushed[pushed.len()
                - recent(pushed, cap).len() + i],
{
}

/// One more push keeps the buffer tracking the most recent elements:
/// stepping the contents with `push_model` is the same as taking the
/// most recent elements of the longer push history.
pub proof fn lemma_recent_push<T>(pushed: Seq<T>, cap: nat, e: T)
    ensures
        push_model(recent(pushed, cap), cap, e) == recent(pushed.push(e), cap),
{
    if cap == 0 {
        assert(push_model(recent(pushed, cap), cap, e) =~= recent(pushed.push(e), cap));
    } else if pushed.len() < cap {
        assert(push_model(recent(pushed, cap), cap, e) =~= recent(pushed.push(e), cap));
    } else {
        assert(push_model(recent(pushed, cap), cap, e) =~= recent(pushed.push(e), cap));
    }
}

/// Fixed-size overwrite-oldest buffer. `buffer` holds the stored
/// elements; while below capacity `next` equals `size`, and once full
/// `next` is the slot of the logically oldest element, which the next
/// push overwrites.
pub struct RingBuffer<T> {
    buffer: Vec<T>,
    capacity: usize,
    size: usize,
    next: usize,
}

impl<T> RingBuffer<T> {
    /// Internal consistency of the cursor bookkeeping.
    pub closed spec fn wf(&self) -> bool {
        &&& self.size <= self.capacity
        &&& self.buffer@.len() == self.size
        &&& if self.size < self.capacity {
            self.next == self.size
        } else {
            self.capacity == 0 ==> self.next == 0
        }
        &&& self.capacity > 0 ==> self.next < self.capacity
    }

    /// The capacity the buffer was created with.
    pub closed spec fn cap(&self) -> nat {
        self.capacity as nat
    }

    /// The logical contents, oldest first.
    pub closed spec fn view(&self) -> Seq<T> {
        if self.size < self.capacity {
            self.buffer@
        } else {
            self.buffer@.skip(self.next as int) + self.buffer@.take(self.next as int)
        }
    }

    pub fn new(capacity: usize) -> (rb: RingBuffer<T>)
        ensures
            rb.wf(),
            rb.cap() == capacity,
            rb@ =~= Seq::<T>::empty(),
    {
        RingBuffer { buffer: Vec::new(), capacity, size: 0, next: 0 }
    }

    /// Number of elements currently held.
    pub fn len(&self) -> (n: usize)
        requires
            self.wf(),
        ensures
            n == self@.len(),
    {
        self.size
    }

    pub fn is_empty(&self) -> (r: bool)
        requires
            self.wf(),
        ensures
            r == (self@.len() == 0),
    {
        self.size == 0
    }

    /// Reset to empty without changing the capacity.
    pub fn clear(&mut self)
        ensures
            final(self).wf(),
            final(self).cap() == old(self).cap(),
            final(self)@ =~= Seq::<T>::empty(),
    {
        self.buffer.truncate(0);
        self.size = 0;
        self.next = 0;
    }

    /// The `i`th oldest element. An out-of-range index violates the
    /// contract; it is never clamped.
    pub fn get(&self, i: usize) -> (r: &T)
        requires
            self.wf(),
            i < self@.len(),
        ensures
            *r == self@[i as int],
    {
        if self.size < self.capacity {
            &self.buffer[i]
        } else {
            let wrap = self.capacity - self.next;
            if i < wrap {
                &self.buffer[self.next + i]
            } else {
                &self.buffer[i - wrap]
            }
        }
    }

    /// Push one element, overwriting the oldest once at capacity. On a
    /// zero-capacity buffer this is a no-op: a degenerate but valid case.
    pub fn push(&mut self, element: T)
        requires
            old(self).wf(),
        ensures
            final(self).wf(),
            final(self).cap() == old(self).cap(),
            final(self)@ == push_model(old(self)@, old(self).cap(), element),
    {
        if self.capacity == 0 {
            assert(self@ =~= push_model(old(self)@, old(self).cap(), element));
            return ;
        }
        if self.size < self.capacity {
            self.buffer.push(element);
            self.size = self.size + 1;
            self.next = if self.next + 1 == self.capacity {
                0
            } else {
                self.next + 1
            };
            assert(self@ =~= push_model(old(self)@, old(self).cap(), element));
        } else {
            let ghost old_view = self@;
            self.buffer[self.next] = element;
            self.next = if self.next + 1 == self.capacity {
                0
            } else {
                self.next + 1
            };
            assert(self@ =~= push_model(old_view, old(self).cap(), element));
        }
    }

    /// Iterate over the contents, oldest to newest.
    pub fn iter<'a>(&'a self) -> (it: RingIterator<'a, T>)
        requires
            self.wf(),
        ensures
            it.wf(),
            it.src() == self@,
            it.pos() == 0,
    {
        RingIterator { rb: self, i: 0 }
    }
}

/// Cursor over a `RingBuffer`, yielding elements oldest to newest.
pub struct RingIterator<'a, T> {
    rb: &'a RingBuffer<T>,
    i: usize,
}

impl<'a, T> RingIterator<'a, T> {
    pub closed spec fn wf(&self) -> bool {
        &&& self.rb.wf()
        &&& self.i <= self.rb@.len()
    }

    /// The sequence being iterated over.
    pub closed spec fn src(&self) -> Seq<T> {
        self.rb@
    }

    /// How many elements have been yielded so far.
    pub closed spec fn pos(&self) -> int {
        self.i as int
    }

    pub fn next(&mut self) -> (r: Option<&'a T>)
        requires
            old(self).wf(),
        ensures
            final(self).wf(),
            final(self).src() == old(self).src(),
            if old(self).pos() < old(self).src().len() {
                &&& r matches Some(e) && *e == old(self).src()[old(self).pos()]
                &&& final(self).pos() == old(self).pos() + 1
            } else {
                r is None && final(self).pos() == old(self).pos()
            },
    {
        if self.i < self.rb.len() {
            let out = self.rb.get(self.i);
            self.i = self.i + 1;
            Some(out)
        } else {
            None
        }
    }
}

/// Decimal form of a signed integer.
pub open spec fn spec_i64_dec(n: int) -> Seq<char> {
    if n < 0 {
        seq!['-'] + spec_dec(-n)
    } else {
        spec_dec(n)
    }
}

/// Render a signed integer in decimal.
pub fn i64_dec(n: i64) -> (r: String)
    ensures
        r@ == spec_i64_dec(n as int),
{
    if n >= 0 {
        u64_dec(n as u64)
    } else {
        let m: u64 = ((-(n + 1)) as u64) + 1;
        let mut s = String::new();
        string_push(&mut s, '-');
        let digits = u64_dec(m);
        s.append(digits.as_str());
        assert(s@ =~= spec_i64_dec(n as int));
        s
    }
}

/// The comma-separated body of the list display form.
pub open spec fn spec_list_body(s: Seq<i64>) -> Seq<char>
    decreases s.len(),
{
    if s.len() == 0 {
        Seq::empty()
    } else if s.len() == 1 {
        spec_i64_dec(s[0] as int)
    } else {
        spec_list_body(s.drop_last()) + seq![',', ' '] + spec_i64_dec(s.last() as int)
    }
}

impl RingBuffer<i64> {
    /// Display the contents oldest to newest, in the order a user of the
    /// buffer observes, hiding the internal wrap position.
    pub fn to_str(&self) -> (r: String)
        requires
            self.wf(),
        ensures
            r@ == seq!['['] + spec_list_body(self@) + seq![']'],
    {
        let mut s = String::new();
        string_push(&mut s, '[');
        let n = self.len();
        assert(self@.take(0) =~= Seq::<i64>::empty());
        for i in 0..n
            invariant
                self.wf(),
                n == self@.len(),
                s@ == seq!['['] + spec_list_body(self@.take(i as int)),
        {
            if i > 0 {
                string_push(&mut s, ',');
                string_push(&mut s, ' ');
            }
            let digits = i64_dec(*self.get(i));
            s.append(digits.as_str());
            proof {
                let t = self@.take(i + 1);
                assert(t.drop_last() =~= self@.take(i as int));
                assert(t.last() == self@[i as int]);
                assert(s@ =~= seq!['['] + spec_list_body(t));
            }
        }
        string_push(&mut s, ']');
        assert(self@.take(n as int) =~= self@);
        assert(s@ =~= seq!['['] + spec_list_body(self@) + seq![']']);
        s
    }
}

} // verus!

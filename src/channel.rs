use vstd::prelude::*;
use ringbuf::Rb;

verus! {

/// A bounded first-in first-out channel of sample words, backed by a heap
/// ring buffer. Pushing to a full channel drops the word; popping from an
/// empty one yields nothing. Neither operation ever waits.
#[verifier::external_body]
pub struct RingChannel {
    rb: ringbuf::HeapRb<u32>,
}

/// The words held by the channel, oldest first.
pub uninterp spec fn channel_contents(c: RingChannel) -> Seq<u32>;

/// The capacity the channel was created with.
pub uninterp spec fn channel_capacity(c: RingChannel) -> nat;

impl View for RingChannel {
    type V = Seq<u32>;

    open spec fn view(&self) -> Seq<u32> {
        channel_contents(*self)
    }
}

impl RingChannel {
    pub open spec fn cap(&self) -> nat {
        channel_capacity(*self)
    }

    /// The channel never holds more than its capacity, which is positive.
    pub open spec fn wf(&self) -> bool {
        &&& self.cap() > 0
        &&& self@.len() <= self.cap()
    }

    /// Relies on ringbuf's `HeapRb::new`: an empty buffer of the given
    /// capacity (it panics on zero).
    #[verifier::external_body]
    pub fn new(capacity: usize) -> (r: RingChannel)
        requires
            capacity > 0,
        ensures
            channel_contents(r) == Seq::<u32>::empty(),
            channel_capacity(r) == capacity,
            r.wf(),
    {
        RingChannel { rb: ringbuf::HeapRb::<u32>::new(capacity) }
    }

    /// Relies on ringbuf's `Rb::capacity`: the capacity given at creation.
    #[verifier::external_body]
    pub fn capacity(&self) -> (r: usize)
        ensures
            r == channel_capacity(*self),
    {
        self.rb.capacity()
    }

    /// Relies on ringbuf's `Rb::len`: the number of words held.
    #[verifier::external_body]
    pub fn len(&self) -> (r: usize)
        ensures
            r == channel_contents(*self).len(),
    {
        self.rb.len()
    }

    /// Relies on ringbuf's `Rb::push`: the word is appended when the buffer
    /// is not full; otherwise it is handed back and the buffer is unchanged.
    #[verifier::external_body]
    pub fn push(&mut self, x: u32) -> (r: bool)
        requires
            old(self).wf(),
        ensures
            final(self).wf(),
            channel_capacity(*final(self)) == channel_capacity(*old(self)),
            r == (channel_contents(*old(self)).len() < channel_capacity(*old(self))),
            r ==> channel_contents(*final(self)) == channel_contents(*old(self)).push(x),
            !r ==> channel_contents(*final(self)) == channel_contents(*old(self)),
    {
        self.rb.push(x).is_ok()
    }

    /// Relies on ringbuf's `Rb::pop`: the oldest word is removed and returned,
    /// or nothing when the buffer is empty.
    #[verifier::external_body]
    pub fn pop(&mut self) -> (r: Option<u32>)
        requires
            old(self).wf(),
        ensures
            final(self).wf(),
            channel_capacity(*final(self)) == channel_capacity(*old(self)),
            channel_contents(*old(self)).len() == 0 ==> r == None::<u32>
                && channel_contents(*final(self)) == channel_contents(*old(self)),
            channel_contents(*old(self)).len() > 0 ==> r == Some(channel_contents(*old(self))[0])
                && channel_contents(*final(self)) == channel_contents(*old(self)).drop_first(),
    {
        self.rb.pop()
    }

    pub fn is_full(&self) -> (r: bool)
        requires
            self.wf(),
        ensures
            r == (self@.len() == self.cap()),
    {
        self.len() >= self.capacity()
    }
}

} // verus!

//! A bounded first-in first-out channel with a one-way close.

use vstd::prelude::*;

verus! {

/// What a receive observes.
#[derive(Debug, Clone, Copy, PartialEq, Eq)]
pub enum Recv<T> {
    /// The oldest buffered item.
    Item(T),
    /// Nothing buffered yet, and the sender may still send: a receiver waits.
    Empty,
    /// Nothing buffered, and the sender has closed: no item will come.
    Exhausted,
}

/// What one receive returns on a channel holding `items`.
pub open spec fn recv_result<T>(items: Seq<T>, closed: bool) -> Recv<T> {
    if items.len() > 0 {
        Recv::Item(items[0])
    } else if closed {
        Recv::Exhausted
    } else {
        Recv::Empty
    }
}

/// What `k` receives in a row return on a channel holding `items`.
pub open spec fn recv_results<T>(items: Seq<T>, closed: bool, k: nat) -> Seq<Recv<T>>
    decreases k,
{
    if k == 0 {
        Seq::empty()
    } else {
        let rest = if items.len() > 0 {
            items.subrange(1, items.len() as int)
        } else {
            items
        };
        seq![recv_result(items, closed)] + recv_results(rest, closed, (k - 1) as nat)
    }
}

/// A bounded channel. Sends fail while it is full or closed; receives take
/// items in the order they were sent, also after the close.
pub struct BoundedChannel<T> {
    buf: Vec<T>,
    cap: usize,
    closed: bool,
}

impl<T> BoundedChannel<T> {
    pub closed spec fn items(&self) -> Seq<T> {
        self.buf@
    }

    pub closed spec fn capacity(&self) -> nat {
        self.cap as nat
    }

    pub closed spec fn is_closed(&self) -> bool {
        self.closed
    }

    pub closed spec fn wf(&self) -> bool {
        self.cap >= 1 && self.buf@.len() <= self.cap
    }

    pub open spec fn has_room(&self) -> bool {
        self.items().len() < self.capacity() && !self.is_closed()
    }

    /// An open, empty channel that buffers up to `cap` items.
    pub fn new(cap: usize) -> (c: Self)
        requires
            cap >= 1,
        ensures
            c.wf(),
            c.items() == Seq::<T>::empty(),
            c.capacity() == cap,
            !c.is_closed(),
    {
        BoundedChannel { buf: Vec::new(), cap, closed: false }
    }

    pub fn len(&self) -> (n: usize)
        ensures
            n == self.items().len(),
    {
        self.buf.len()
    }

    pub fn is_empty(&self) -> (b: bool)
        ensures
            b == (self.items().len() == 0),
    {
        self.buf.len() == 0
    }

    pub fn closed(&self) -> (b: bool)
        ensures
            b == self.is_closed(),
    {
        self.closed
    }

    /// Whether a send would be taken now.
    pub fn can_send(&self) -> (b: bool)
        ensures
            b == self.has_room(),
    {
        self.buf.len() < self.cap && !self.closed
    }

    /// Send `x`: it is buffered when there is room and the channel is open,
    /// and handed back otherwise.
    pub fn try_send(&mut self, x: T) -> (r: Result<(), T>)
        requires
            old(self).wf(),
        ensures
            final(self).wf(),
            final(self).capacity() == old(self).capacity(),
            final(self).is_closed() == old(self).is_closed(),
            old(self).has_room() ==> r is Ok && final(self).items() == old(self).items().push(x),
            !old(self).has_room() ==> r == Err::<(), T>(x) && final(self).items() == old(
                self,
            ).items(),
    {
        if self.buf.len() < self.cap && !self.closed {
            self.buf.push(x);
            Ok(())
        } else {
            Err(x)
        }
    }

    /// Receive: the oldest buffered item if there is one; otherwise
    /// `Exhausted` once the channel is closed, `Empty` before.
    pub fn recv(&mut self) -> (r: Recv<T>)
        requires
            old(self).wf(),
        ensures
            final(self).wf(),
            final(self).capacity() == old(self).capacity(),
            final(self).is_closed() == old(self).is_closed(),
            r == recv_result(old(self).items(), old(self).is_closed()),
            final(self).items() == (if old(self).items().len() > 0 {
                old(self).items().subrange(1, old(self).items().len() as int)
            } else {
                old(self).items()
            }),
    {
        if self.buf.len() > 0 {
            let x = self.buf.remove(0);
            assert(old(self).items().remove(0) =~= old(self).items().subrange(
                1,
                old(self).items().len() as int,
            ));
            Recv::Item(x)
        } else if self.closed {
            Recv::Exhausted
        } else {
            Recv::Empty
        }
    }

    /// Close the sending side. Buffered items stay; closing twice is the
    /// same as closing once.
    pub fn close(&mut self)
        requires
            old(self).wf(),
        ensures
            final(self).wf(),
            final(self).capacity() == old(self).capacity(),
            final(self).items() == old(self).items(),
            final(self).is_closed(),
    {
        self.closed = true;
    }
}

/// Receiving from a closed channel yields every buffered item, oldest
/// first, and then exhaustion; on a closed, empty channel the very next
/// receive observes exhaustion.
pub proof fn lemma_drain_after_close<T>(items: Seq<T>)
    ensures
        recv_results(items, true, items.len() + 1) == items.map_values(|x: T| Recv::Item(x)).push(
            Recv::<T>::Exhausted,
        ),
        recv_result(Seq::<T>::empty(), true) == Recv::<T>::Exhausted,
    decreases items.len(),
{
    if items.len() == 0 {
        assert(recv_results(items, true, 0) =~= Seq::<Recv<T>>::empty());
        assert(recv_results(items, true, 1) =~= seq![Recv::<T>::Exhausted]);
        assert(items.map_values(|x: T| Recv::Item(x)).push(Recv::<T>::Exhausted) =~= seq![
            Recv::<T>::Exhausted,
        ]);
    } else {
        let rest = items.subrange(1, items.len() as int);
        lemma_drain_after_close(rest);
        assert(recv_results(items, true, items.len() + 1) =~= items.map_values(
            |x: T| Recv::Item(x),
        ).push(Recv::<T>::Exhausted));
    }
}

} // verus!

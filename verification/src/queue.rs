//! The outbound queue, with an explicit bound and a reject-on-overflow
//! policy: a send never blocks, and a full queue hands the message back
//! instead of growing without limit under a stalled consumer.
use vstd::prelude::*;
use crate::protocol::responses::{MessageModel, Messsage};

verus! {

pub open spec fn msgs_view(s: Seq<Messsage>) -> Seq<MessageModel> {
    Seq::new(s.len(), |i: int| s[i]@)
}

/// A first-in-first-out message queue holding at most `bound` items.
pub struct BoundedQueue {
    items: Vec<Messsage>,
    bound: usize,
}

impl View for BoundedQueue {
    type V = Seq<MessageModel>;

    closed spec fn view(&self) -> Seq<MessageModel> {
        msgs_view(self.items@)
    }
}

impl BoundedQueue {
    pub closed spec fn bound(&self) -> nat {
        self.bound as nat
    }

    /// An empty queue that will hold at most `bound` items.
    pub fn with_bound(bound: usize) -> (r: BoundedQueue)
        ensures
            r@ == Seq::<MessageModel>::empty(),
            r.bound() == bound,
    {
        let q = BoundedQueue { items: Vec::new(), bound };
        proof {
            assert(q@ =~= Seq::<MessageModel>::empty());
        }
        q
    }

    pub fn len(&self) -> (r: usize)
        ensures
            r == self@.len(),
    {
        self.items.len()
    }

    /// Appends a message without ever blocking.  When the queue is full
    /// the message comes back unchanged and the queue does not grow.
    pub fn enqueue(&mut self, message: Messsage) -> (r: Result<(), Messsage>)
        ensures
            final(self).bound() == old(self).bound(),
            old(self)@.len() < old(self).bound() ==> r is Ok && final(self)@ == old(self)@.push(
                message@,
            ),
            old(self)@.len() >= old(self).bound() ==> (r matches Err(back) && back == message)
                && final(self)@ == old(self)@,
    {
        if self.items.len() < self.bound {
            let ghost before = self.items@;
            let ghost mm = message@;
            self.items.push(message);
            proof {
                assert(msgs_view(self.items@) =~= msgs_view(before).push(mm));
            }
            Ok(())
        } else {
            Err(message)
        }
    }

    /// Takes the oldest message, `None` when the queue is empty.
    pub fn dequeue(&mut self) -> (r: Option<Messsage>)
        ensures
            final(self).bound() == old(self).bound(),
            old(self)@.len() == 0 ==> r is None && final(self)@ == old(self)@,
            old(self)@.len() > 0 ==> (r matches Some(m) && m@ == old(self)@[0]) && final(self)@
                == old(self)@.drop_first(),
    {
        if self.items.len() == 0 {
            None
        } else {
            let ghost before = self.items@;
            let m = self.items.remove(0);
            proof {
                assert(msgs_view(self.items@) =~= msgs_view(before).drop_first());
            }
            Some(m)
        }
    }
}

} // verus!

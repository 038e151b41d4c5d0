//! A bounded, ordered, single-consumer request queue between the
//! controller and one plugin. Sends are non-blocking: a send into a full
//! mailbox fails immediately instead of stalling the sender.

use vstd::prelude::*;

use crate::model::{PluginRequest, RequestView};

verus! {

/// One plugin's request mailbox: the controller pushes requests in, the
/// plugin worker takes them out in FIFO order.
pub struct Mailbox {
    msgs: Vec<PluginRequest>,
    capacity: usize,
}

impl Mailbox {
    /// The queued requests, oldest first.
    pub closed spec fn contents(&self) -> Seq<RequestView> {
        self.msgs.deep_view()
    }

    /// The fixed bound on how many requests may be queued at once.
    pub closed spec fn capacity(&self) -> nat {
        self.capacity as nat
    }

    /// A mailbox never holds more requests than its capacity.
    pub open spec fn wf(&self) -> bool {
        self.contents().len() <= self.capacity()
    }

    pub fn new(capacity: usize) -> (r: Self)
        ensures
            r.contents() == Seq::<RequestView>::empty(),
            r.capacity() == capacity as nat,
            r.wf(),
    {
        let r = Mailbox { msgs: Vec::new(), capacity };
        proof {
            assert(r.contents() =~= Seq::<RequestView>::empty());
        }
        r
    }

    pub fn len(&self) -> (n: usize)
        ensures
            n == self.contents().len(),
    {
        self.msgs.len()
    }

    /// Non-blocking send: enqueues the request unless the mailbox is
    /// full, and reports whether it was taken.
    pub fn try_send(&mut self, req: PluginRequest) -> (ok: bool)
        requires
            old(self).wf(),
        ensures
            final(self).wf(),
            final(self).capacity() == old(self).capacity(),
            ok == (old(self).contents().len() < old(self).capacity()),
            ok ==> final(self).contents() == old(self).contents().push(req@),
            !ok ==> final(self).contents() == old(self).contents(),
    {
        if self.msgs.len() < self.capacity {
            self.msgs.push(req);
            proof {
                assert(self.contents() =~= old(self).contents().push(req@));
            }
            true
        } else {
            false
        }
    }

    /// Non-blocking receive: takes the oldest queued request, if any.
    pub fn try_recv(&mut self) -> (r: Option<PluginRequest>)
        requires
            old(self).wf(),
        ensures
            final(self).wf(),
            final(self).capacity() == old(self).capacity(),
            old(self).contents().len() == 0 ==> r is None && final(self).contents() == old(
                self,
            ).contents(),
            old(self).contents().len() > 0 ==> {
                &&& r is Some
                &&& r.deep_view() == Some(old(self).contents()[0])
                &&& final(self).contents() == old(self).contents().drop_first()
            },
    {
        if self.msgs.len() == 0 {
            None
        } else {
            let req = self.msgs.remove(0);
            proof {
                assert(self.contents() =~= old(self).contents().drop_first());
            }
            Some(req)
        }
    }
}

} // verus!

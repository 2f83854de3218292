//! The bounded inbox between a background server and a single-threaded
//! host: work waits here until the host drains it, and a full inbox turns
//! new work away instead of growing.

use vstd::prelude::*;

use crate::server::MAX_MAILBOX_DEPTH;

verus! {

/// Queued work, oldest first, never more than [`MAX_MAILBOX_DEPTH`] items.
pub struct MailboxQueue<T> {
    items: Vec<T>,
}

impl<T> View for MailboxQueue<T> {
    type V = Seq<T>;

    closed spec fn view(&self) -> Seq<T> {
        self.items@
    }
}

impl<T> MailboxQueue<T> {
    #[verifier::type_invariant]
    spec fn bounded(self) -> bool {
        self.items@.len() <= MAX_MAILBOX_DEPTH
    }

    /// An empty inbox.
    pub fn new() -> (r: Self)
        ensures
            r@.len() == 0,
    {
        MailboxQueue { items: Vec::new() }
    }

    /// The number of items waiting.
    pub fn len(&self) -> (r: usize)
        ensures
            r == self@.len(),
            r <= MAX_MAILBOX_DEPTH,
    {
        proof {
            use_type_invariant(self);
        }
        self.items.len()
    }

    /// Queue `item` behind the others, or hand it back when the inbox is
    /// full.
    pub fn push(&mut self, item: T) -> (r: Result<(), T>)
        ensures
            old(self)@.len() < MAX_MAILBOX_DEPTH ==> r is Ok && final(self)@ == old(self)@.push(item),
            old(self)@.len() >= MAX_MAILBOX_DEPTH ==> r == Err::<(), T>(item) && final(self)@ == old(self)@,
            final(self)@.len() <= MAX_MAILBOX_DEPTH,
    {
        proof {
            use_type_invariant(&*self);
        }
        if self.items.len() >= MAX_MAILBOX_DEPTH {
            return Err(item);
        }
        let mut items = Vec::new();
        std::mem::swap(&mut items, &mut self.items);
        items.push(item);
        self.items = items;
        Ok(())
    }

    /// Everything waiting, oldest first; the inbox is left empty.
    pub fn take(&mut self) -> (r: Vec<T>)
        ensures
            r@ == old(self)@,
            final(self)@.len() == 0,
    {
        let mut items = Vec::new();
        std::mem::swap(&mut items, &mut self.items);
        items
    }
}

/// What a client polling a channel of snapshots shows next. `received`
/// holds, in order, what non-blocking receives returned before the first
/// one that returned nothing; `disconnected` says whether that first empty
/// receive found the sender gone. The newest item wins; with none, a gone
/// sender is reported and an empty channel shows nothing new.
pub fn drain_latest<T>(received: Vec<Result<T, String>>, disconnected: bool) -> (r: Option<Result<T, String>>)
    ensures
        received@.len() > 0 ==> r == Some(received@.last()),
        received@.len() == 0 && disconnected ==> (r matches Some(Err(e)) && e@ == "daemon worker exited"@),
        received@.len() == 0 && !disconnected ==> r is None,
{
    let mut received = received;
    match received.pop() {
        Some(last) => Some(last),
        None => if disconnected {
            Some(Err("daemon worker exited".to_owned()))
        } else {
            None
        },
    }
}

} // verus!

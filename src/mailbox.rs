use vstd::prelude::*;

verus! {

/// Capacity of a mailbox unless another is chosen.
pub const DEFAULT_MAILBOX_CAPACITY: usize = 32;

/// A bounded first-in first-out queue of inbound lines. A line published to
/// a full mailbox is dropped; lines already queued are kept. The mailbox is
/// closed once every publisher has been released.
pub struct Mailbox {
    messages: Vec<String>,
    capacity: usize,
    publishers: usize,
}

/// The queue after one attempt to publish `line`.
pub open spec fn published(queue: Seq<String>, capacity: nat, line: String) -> Seq<String> {
    if queue.len() < capacity {
        queue.push(line)
    } else {
        queue
    }
}

/// The queue after attempts to publish each of `lines` in turn.
pub open spec fn published_all(queue: Seq<String>, capacity: nat, lines: Seq<String>) -> Seq<String>
    decreases lines.len(),
{
    if lines.len() == 0 {
        queue
    } else {
        published(published_all(queue, capacity, lines.drop_last()), capacity, lines.last())
    }
}

impl Mailbox {
    /// The queued lines, oldest first.
    pub closed spec fn spec_messages(&self) -> Seq<String> {
        self.messages@
    }

    pub closed spec fn spec_capacity(&self) -> nat {
        self.capacity as nat
    }

    pub closed spec fn spec_publishers(&self) -> nat {
        self.publishers as nat
    }

    pub open spec fn wf(&self) -> bool {
        &&& 0 < self.spec_capacity()
        &&& self.spec_messages().len() <= self.spec_capacity()
    }

    /// An empty mailbox with one publisher.
    pub fn new(capacity: usize) -> (r: Self)
        requires
            capacity > 0,
        ensures
            r.wf(),
            r.spec_messages().len() == 0,
            r.spec_capacity() == capacity,
            r.spec_publishers() == 1,
    {
        Mailbox { messages: Vec::new(), capacity, publishers: 1 }
    }

    pub fn capacity(&self) -> (r: usize)
        ensures
            r == self.spec_capacity(),
    {
        self.capacity
    }

    pub fn len(&self) -> (r: usize)
        ensures
            r == self.spec_messages().len(),
    {
        self.messages.len()
    }

    /// Queues `line` if there is room, without waiting; otherwise hands it
    /// back, dropped.
    pub fn try_publish(&mut self, line: String) -> (r: Result<(), String>)
        requires
            old(self).wf(),
        ensures
            final(self).wf(),
            final(self).spec_capacity() == old(self).spec_capacity(),
            final(self).spec_publishers() == old(self).spec_publishers(),
            final(self).spec_messages() == published(old(self).spec_messages(), old(self).spec_capacity(), line),
            r is Ok <==> old(self).spec_messages().len() < old(self).spec_capacity(),
            r matches Err(l) ==> l == line,
    {
        if self.messages.len() < self.capacity {
            self.messages.push(line);
            Ok(())
        } else {
            Err(line)
        }
    }

    /// Takes the oldest queued line, if any.
    pub fn receive(&mut self) -> (r: Option<String>)
        requires
            old(self).wf(),
        ensures
            final(self).wf(),
            final(self).spec_capacity() == old(self).spec_capacity(),
            final(self).spec_publishers() == old(self).spec_publishers(),
            old(self).spec_messages().len() == 0 ==> r is None && final(self).spec_messages() == old(self).spec_messages(),
            old(self).spec_messages().len() > 0 ==> r == Some(old(self).spec_messages()[0])
                && final(self).spec_messages() == old(self).spec_messages().drop_first(),
    {
        if self.messages.len() == 0 {
            None
        } else {
            let m = self.messages.remove(0);
            assert(self.messages@ =~= old(self).messages@.drop_first());
            Some(m)
        }
    }

    pub fn publishers(&self) -> (r: usize)
        ensures
            r == self.spec_publishers(),
    {
        self.publishers
    }

    /// Registers one more publisher.
    pub fn add_publisher(&mut self)
        requires
            old(self).spec_publishers() < usize::MAX,
        ensures
            final(self).spec_publishers() == old(self).spec_publishers() + 1,
            final(self).spec_messages() == old(self).spec_messages(),
            final(self).spec_capacity() == old(self).spec_capacity(),
    {
        self.publishers = self.publishers + 1;
    }

    /// Releases one publisher; releasing the last closes the mailbox.
    pub fn release_publisher(&mut self)
        ensures
            final(self).spec_publishers() == if old(self).spec_publishers() == 0 {
                0
            } else {
                (old(self).spec_publishers() - 1) as nat
            },
            final(self).spec_messages() == old(self).spec_messages(),
            final(self).spec_capacity() == old(self).spec_capacity(),
    {
        if self.publishers > 0 {
            self.publishers = self.publishers - 1;
        }
    }

    /// Whether every publisher has been released. Queued lines can still be
    /// received from a closed mailbox.
    pub fn is_closed(&self) -> (r: bool)
        ensures
            r == (self.spec_publishers() == 0),
    {
        self.publishers == 0
    }
}

/// Publishing lines to an empty mailbox that nobody drains keeps exactly the
/// first `capacity` of them, in order, and drops the rest.
pub proof fn lemma_overflow_keeps_oldest(capacity: nat, lines: Seq<String>)
    ensures
        published_all(Seq::empty(), capacity, lines) == lines.take(
            if lines.len() < capacity { lines.len() as int } else { capacity as int },
        ),
    decreases lines.len(),
{
    if lines.len() > 0 {
        let prefix = lines.drop_last();
        lemma_overflow_keeps_oldest(capacity, prefix);
        if prefix.len() < capacity {
            assert(lines.take(lines.len() as int) =~= prefix.take(prefix.len() as int).push(lines.last()));
        } else {
            assert(lines.take(capacity as int) =~= prefix.take(capacity as int));
        }
    } else {
        assert(lines.take(0) =~= Seq::<String>::empty());
    }
}

} // verus!

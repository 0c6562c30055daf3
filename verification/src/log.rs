//! The partition log interface: the read/append contract this engine
//! consumes from the storage collaborator, modeled as an in-memory ordered,
//! append-only sequence of messages.
//!
//! The message stored at position `i` carries offset `i`; the log's tail --
//! its highest available offset -- is the position one past the last stored
//! message, where the next append lands. A read never crosses partition
//! boundaries (each partition has its own log) and returns fewer messages
//! than asked for when the log does not yet hold that many; it never blocks.

use vstd::prelude::*;

verus! {

/// One stored message: its offset within the partition and its payload.
#[derive(Clone, Debug)]
pub struct Message {
    pub offset: u64,
    pub payload: Vec<u8>,
}

/// Copies a payload byte for byte.
fn copy_bytes(v: &Vec<u8>) -> (r: Vec<u8>)
    ensures
        r@ == v@,
{
    let mut r: Vec<u8> = Vec::new();
    let mut i: usize = 0;
    while i < v.len()
        invariant
            i <= v@.len(),
            r@ =~= v@.subrange(0, i as int),
        decreases v@.len() - i,
    {
        r.push(v[i]);
        i = i + 1;
    }
    assert(r@ =~= v@);
    r
}

/// An ordered, append-only log of messages for one partition.
pub struct PartitionLog {
    messages: Vec<Message>,
}

impl View for PartitionLog {
    type V = Seq<Seq<u8>>;

    /// The log's content: the payload at each offset, in order.
    closed spec fn view(&self) -> Seq<Seq<u8>> {
        Seq::new(self.messages@.len() as nat, |i: int| self.messages@[i].payload@)
    }
}

impl PartitionLog {
    /// Each stored message carries its position as its offset.
    pub closed spec fn wf(&self) -> bool {
        forall|i: int|
            0 <= i < self.messages@.len() ==> (#[trigger] self.messages@[i]).offset == i
    }

    /// An empty partition log.
    pub fn new() -> (log: PartitionLog)
        ensures
            log.wf(),
            log@ =~= Seq::<Seq<u8>>::empty(),
    {
        PartitionLog { messages: Vec::new() }
    }

    /// The tail of the log: the offset one past the last stored message,
    /// where the next append lands; zero for an empty log. Offsets up to and
    /// including this value are committable; reads at or past it see
    /// nothing.
    pub fn highest_offset(&self) -> (h: u64)
        ensures
            h == self@.len(),
    {
        self.messages.len() as u64
    }

    /// Appends a message, which receives the tail offset.
    pub fn append(&mut self, payload: Vec<u8>) -> (offset: u64)
        requires
            old(self).wf(),
        ensures
            final(self).wf(),
            offset == old(self)@.len(),
            final(self)@ =~= old(self)@.push(payload@),
    {
        let offset = self.messages.len() as u64;
        let ghost prev = self.messages@;
        self.messages.push(Message { offset, payload });
        proof {
            assert(forall|i: int| 0 <= i < prev.len() ==> self.messages@[i] == prev[i]);
        }
        offset
    }

    /// Reads up to `count` messages starting at `start_offset`: exactly the
    /// log's entries from that offset on, fewer than `count` when the log
    /// does not hold that many, none when the start is at or past the tail.
    pub fn read(&self, start_offset: u64, count: u32) -> (msgs: Vec<Message>)
        requires
            self.wf(),
        ensures
            msgs@.len() == if start_offset <= self@.len() {
                vstd::math::min((self@.len() - start_offset) as int, count as int)
            } else {
                0int
            },
            forall|k: int|
                0 <= k < msgs@.len() ==> (#[trigger] msgs@[k]).offset == start_offset + k
                    && msgs@[k].payload@ == self@[start_offset + k],
    {
        let mut msgs: Vec<Message> = Vec::new();
        if start_offset >= self.messages.len() as u64 {
            return msgs;
        }
        let start = start_offset as usize;
        let mut i: usize = start;
        while i < self.messages.len() && i - start < count as usize
            invariant
                self.wf(),
                start == start_offset,
                start <= i <= self.messages@.len(),
                i - start <= count,
                msgs@.len() == i - start,
                forall|k: int|
                    0 <= k < msgs@.len() ==> (#[trigger] msgs@[k]).offset == start_offset + k
                        && msgs@[k].payload@ == self@[start_offset + k],
            decreases self.messages@.len() - i,
        {
            let ghost prev = msgs@;
            let payload = copy_bytes(&self.messages[i].payload);
            msgs.push(Message { offset: self.messages[i].offset, payload });
            proof {
                assert(forall|k: int| 0 <= k < prev.len() ==> msgs@[k] == prev[k]);
                assert(self.messages@[i as int].offset == i);
                assert(msgs@[(i - start) as int].payload@ == self@[i as int]);
            }
            i = i + 1;
        }
        msgs
    }

}

} // verus!

//! The input of the relay as a stream of bytes, and the messages that carry
//! a snapshot to the control side.

use vstd::prelude::*;
use vstd::slice::{slice_subrange, slice_to_vec};

verus! {

/// Bytes that wait to be read, in order. What was read is gone.
pub struct ByteStream {
    data: Vec<u8>,
    pos: usize,
}

impl View for ByteStream {
    type V = Seq<u8>;

    /// The bytes that are still to be read.
    closed spec fn view(&self) -> Seq<u8> {
        self.data@.skip(self.pos as int)
    }
}

impl ByteStream {
    #[verifier::type_invariant]
    spec fn in_bounds(self) -> bool {
        self.pos <= self.data.len()
    }

    /// A stream that holds `data`.
    pub fn new(data: Vec<u8>) -> (stream: ByteStream)
        ensures
            stream@ == data@,
    {
        assert(data@.skip(0) =~= data@);
        ByteStream { data, pos: 0 }
    }

    /// The number of bytes that are still to be read.
    pub fn available(&self) -> (n: usize)
        ensures
            n == self@.len(),
    {
        proof {
            use_type_invariant(self);
        }
        self.data.len() - self.pos
    }

    /// Reads the next `n` bytes. Where fewer are left the stream has ended
    /// too early: there is no result then, and nothing is left to read.
    pub fn read_exact(&mut self, n: usize) -> (bytes: Option<Vec<u8>>)
        ensures
            n <= old(self)@.len() ==> {
                &&& bytes matches Some(b)
                &&& b@ == old(self)@.take(n as int)
                &&& final(self)@ == old(self)@.skip(n as int)
            },
            n > old(self)@.len() ==> {
                &&& bytes is None
                &&& final(self)@ == Seq::<u8>::empty()
            },
    {
        proof {
            use_type_invariant(&*self);
        }
        let len = self.data.len();
        if n > len - self.pos {
            self.pos = len;
            assert(self.data@.skip(len as int) =~= Seq::<u8>::empty());
            None
        } else {
            let start = self.pos;
            let bytes = slice_to_vec(slice_subrange(self.data.as_slice(), start, start + n));
            self.pos = start + n;
            assert(bytes@ =~= self.data@.skip(start as int).take(n as int));
            assert(self.data@.skip(start + n) =~= self.data@.skip(start as int).skip(n as int));
            Some(bytes)
        }
    }
}

/// One message of a snapshot on its way to the control side.
#[derive(Debug, PartialEq, Eq)]
pub enum SnapshotMsg {
    /// The next bytes of the frame.
    Chunk(Vec<u8>),
    /// The frame is complete.
    End,
}

/// What a snapshot message says.
pub enum Message {
    /// The next bytes of the frame.
    Chunk(Seq<u8>),
    /// The frame is complete.
    End,
}

impl View for SnapshotMsg {
    type V = Message;

    open spec fn view(&self) -> Message {
        match self {
            SnapshotMsg::Chunk(bytes) => Message::Chunk(bytes@),
            SnapshotMsg::End => Message::End,
        }
    }
}

/// What a list of snapshot messages says.
pub open spec fn messages(msgs: Seq<SnapshotMsg>) -> Seq<Message> {
    msgs.map_values(|m: SnapshotMsg| m@)
}

/// The bytes that the messages `msgs` carry, in order.
pub open spec fn payload(msgs: Seq<Message>) -> Seq<u8>
    decreases msgs.len(),
{
    if msgs.len() == 0 {
        Seq::empty()
    } else {
        payload(msgs.drop_last()) + match msgs.last() {
            Message::Chunk(bytes) => bytes,
            Message::End => Seq::empty(),
        }
    }
}

} // verus!

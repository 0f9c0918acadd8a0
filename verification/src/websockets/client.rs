use vstd::prelude::*;

use crate::websockets::frame::{
    frame_opcode_unknown, message_bytes, parse_frame, read_message, unknown_opcode, Message,
    ReadError,
};

verus! {

/// One end of a WebSocket connection: the bytes written for the peer, and
/// the bytes received from it that are not read yet.
pub struct Client {
    sent: Vec<u8>,
    received: Vec<u8>,
}

impl Client {
    /// The bytes written and not yet taken for sending.
    pub closed spec fn outgoing(&self) -> Seq<u8> {
        self.sent@
    }

    /// The bytes received and not yet read as messages.
    pub closed spec fn incoming(&self) -> Seq<u8> {
        self.received@
    }

    pub fn new() -> (c: Client)
        ensures
            c.outgoing() == Seq::<u8>::empty(),
            c.incoming() == Seq::<u8>::empty(),
    {
        Client { sent: Vec::new(), received: Vec::new() }
    }

    /// Writes the frame of `message`.
    pub fn write(&mut self, message: Message)
        ensures
            final(self).outgoing() == old(self).outgoing() + message_bytes(message),
            final(self).incoming() == old(self).incoming(),
    {
        crate::websockets::frame::write_message(&mut self.sent, message);
    }

    /// Hands over the bytes written so far, leaving none.
    pub fn take_outgoing(&mut self) -> (bytes: Vec<u8>)
        ensures
            bytes@ == old(self).outgoing(),
            final(self).outgoing() == Seq::<u8>::empty(),
            final(self).incoming() == old(self).incoming(),
    {
        let mut bytes: Vec<u8> = Vec::new();
        std::mem::swap(&mut bytes, &mut self.sent);
        bytes
    }

    /// Adds bytes received from the peer.
    pub fn receive(&mut self, bytes: &[u8])
        ensures
            final(self).incoming() == old(self).incoming() + bytes@,
            final(self).outgoing() == old(self).outgoing(),
    {
        let mut i: usize = 0;
        while i < bytes.len()
            invariant
                i <= bytes@.len(),
                self.received@ == old(self).incoming() + bytes@.take(i as int),
                self.sent@ == old(self).outgoing(),
            decreases bytes@.len() - i,
        {
            self.received.push(bytes[i]);
            assert(bytes@.take(i + 1) =~= bytes@.take(i as int).push(bytes@[i as int]));
            i += 1;
        }
        assert(bytes@.take(bytes@.len() as int) =~= bytes@);
    }

    /// Whether the next frame received has a complete header with an opcode
    /// that `read` cannot take.
    pub fn next_opcode_unknown(&self) -> (b: bool)
        ensures
            b == unknown_opcode(self.incoming()),
    {
        frame_opcode_unknown(&self.received)
    }

    /// Reads the next message from the bytes received; when they end before
    /// the frame does, nothing is taken and `UnexpectedEof` is given.
    pub fn read(&mut self) -> (r: Result<Message, ReadError>)
        requires
            !unknown_opcode(old(self).incoming()),
        ensures
            final(self).outgoing() == old(self).outgoing(),
            parse_frame(old(self).incoming()) is None ==> r == Err::<Message, ReadError>(
                ReadError::UnexpectedEof,
            ),
            parse_frame(old(self).incoming()) is None ==> final(self).incoming() == old(self).incoming(),
            parse_frame(old(self).incoming()) matches Some((op, p, n)) ==> {
                &&& final(self).incoming() == old(self).incoming().skip(n)
                &&& r is Ok
                &&& op == 1 ==> (r->Ok_0 matches Message::Text(t) && t@ == crate::text::utf8_lossy(p)
                    && (vstd::utf8::valid_utf8(p) ==> t@ == vstd::utf8::decode_utf8(p)))
                &&& op == 2 ==> (r->Ok_0 matches Message::Binary(b) && b@ == p)
                &&& op == 8 ==> r->Ok_0 matches Message::Close
            },
    {
        match read_message(&self.received) {
            Err(e) => Err(e),
            Ok((message, used)) => {
                let mut rest: Vec<u8> = Vec::new();
                let mut i = used;
                let n = self.received.len();
                while i < n
                    invariant
                        used <= i <= n == self.received@.len(),
                        rest@ == self.received@.subrange(used as int, i as int),
                    decreases n - i,
                {
                    rest.push(self.received[i]);
                    assert(rest@ =~= self.received@.subrange(used as int, i + 1));
                    i += 1;
                }
                self.received = rest;
                Ok(message)
            },
        }
    }
}

} // verus!

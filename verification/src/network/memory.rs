//! An in-memory transport: the concrete connection adapter that needs no
//! socket. Bytes to be read wait in an inbox, written bytes land in an
//! outbox, and the read deadline is plain data, so every part of the
//! connection contract — including that a per-call deadline override never
//! leaks — is checked here.

use vstd::prelude::*;

use crate::network::buffer::{BufView, Buffer};
use crate::network::connection::{
    Connection, Pipeline, Stage, Writable, stages_apply, stages_first_error, stages_fit,
};
use crate::network::{ByteOrder, Error, PacketDirection, PacketState};

verus! {

/// The buffer a connection write starts from: empty, writable, and
/// explicitly big-endian — the network byte order — so the bytes that go
/// out are the same on every machine.
pub open spec fn fresh_wire_view() -> BufView {
    BufView {
        data: Seq::<u8>::empty(),
        position: 0nat,
        writable: true,
        order: Some(ByteOrder::BigEndian),
    }
}

/// How many bytes one bounded read takes from the front of the waiting
/// bytes: a single chunk of at most 1024.
pub open spec fn chunk_len(inbox: Seq<u8>) -> int {
    if inbox.len() > 1024 {
        1024
    } else {
        inbox.len() as int
    }
}

/// A duplex transport held entirely in memory.
pub struct MemoryTransport {
    inbox: Vec<u8>,
    outbox: Vec<u8>,
    timeout: Option<u64>,
}

impl MemoryTransport {
    /// The bytes waiting to be read.
    pub closed spec fn spec_inbox(&self) -> Seq<u8> {
        self.inbox@
    }

    /// The bytes written so far.
    pub closed spec fn spec_outbox(&self) -> Seq<u8> {
        self.outbox@
    }

    /// The configured read deadline, in milliseconds.
    pub closed spec fn spec_timeout(&self) -> Option<u64> {
        self.timeout
    }

    /// A fresh transport with nothing waiting, nothing written, and the
    /// given read deadline.
    pub fn new(timeout: Option<u64>) -> (r: MemoryTransport)
        ensures
            r.spec_inbox() == Seq::<u8>::empty(),
            r.spec_outbox() == Seq::<u8>::empty(),
            r.spec_timeout() == timeout,
    {
        MemoryTransport { inbox: Vec::new(), outbox: Vec::new(), timeout }
    }
}

/// A connection over a [`MemoryTransport`].
pub struct MemoryConnection {
    packet_state: PacketState,
    pipeline: Pipeline,
    transport: MemoryTransport,
}

impl MemoryConnection {
    /// The bytes waiting to be read.
    pub closed spec fn spec_inbox(&self) -> Seq<u8> {
        self.transport.inbox@
    }

    /// The encoder stages of the pipeline this connection writes through.
    pub closed spec fn spec_encoders(&self) -> Seq<(Option<String>, Stage)> {
        self.pipeline.spec_encoders()
    }

    /// The configured read deadline, in milliseconds.
    pub fn get_timeout(&self) -> (r: Option<u64>)
        ensures
            r == self.spec_timeout(),
    {
        self.transport.timeout
    }

    /// Sets the transport's read deadline.
    pub fn set_timeout(&mut self, timeout: Option<u64>)
        ensures
            final(self).spec_timeout() == timeout,
            final(self).spec_state() == old(self).spec_state(),
            final(self).spec_sent() == old(self).spec_sent(),
            final(self).spec_inbox() == old(self).spec_inbox(),
            final(self).spec_encoders() == old(self).spec_encoders(),
    {
        self.transport.timeout = timeout;
    }

    /// Hands the transport bytes that a later read will find waiting.
    pub fn push_incoming(&mut self, bytes: Vec<u8>)
        ensures
            final(self).spec_inbox() == old(self).spec_inbox() + bytes@,
            final(self).spec_timeout() == old(self).spec_timeout(),
            final(self).spec_state() == old(self).spec_state(),
            final(self).spec_sent() == old(self).spec_sent(),
            final(self).spec_encoders() == old(self).spec_encoders(),
    {
        let n = bytes.len();
        let mut i: usize = 0;
        while i < n
            invariant
                i <= n,
                n == bytes@.len(),
                self.transport.inbox@ == old(self).spec_inbox() + bytes@.take(i as int),
                self.transport.timeout == old(self).spec_timeout(),
                self.packet_state == old(self).spec_state(),
                self.transport.outbox@ == old(self).spec_sent(),
                self.pipeline.spec_encoders() == old(self).spec_encoders(),
            decreases n - i,
        {
            self.transport.inbox.push(bytes[i]);
            i += 1;
            proof {
                assert(old(self).spec_inbox() + bytes@.take(i - 1) + seq![bytes@[i - 1]] =~= old(
                    self,
                ).spec_inbox() + bytes@.take(i as int));
            }
        }
        proof {
            assert(bytes@.take(n as int) =~= bytes@);
        }
    }

    /// A copy of every byte written so far, in the order written.
    pub fn sent_bytes(&self) -> (r: Vec<u8>)
        ensures
            r@ == self.spec_sent(),
    {
        let n = self.transport.outbox.len();
        let mut out: Vec<u8> = Vec::new();
        let mut i: usize = 0;
        while i < n
            invariant
                i <= n,
                n == self.transport.outbox@.len(),
                out@ == self.transport.outbox@.take(i as int),
            decreases n - i,
        {
            out.push(self.transport.outbox[i]);
            i += 1;
            proof {
                assert(self.transport.outbox@.take(i - 1) + seq![self.transport.outbox@[i - 1]]
                    =~= self.transport.outbox@.take(i as int));
            }
        }
        proof {
            assert(self.transport.outbox@.take(n as int) =~= self.transport.outbox@);
        }
        out
    }
}

impl Connection<MemoryTransport> for MemoryConnection {
    closed spec fn spec_state(&self) -> PacketState {
        self.packet_state
    }

    closed spec fn spec_timeout(&self) -> Option<u64> {
        self.transport.timeout
    }

    closed spec fn spec_sent(&self) -> Seq<u8> {
        self.transport.outbox@
    }

    fn new(object: MemoryTransport, pipeline: Pipeline) -> (r: Self)
        ensures
            r.spec_timeout() == object.spec_timeout(),
            r.spec_sent() == object.spec_outbox(),
            r.spec_inbox() == object.spec_inbox(),
            r.spec_encoders() == pipeline.spec_encoders(),
    {
        MemoryConnection { transport: object, pipeline, packet_state: PacketState::Handshaking }
    }

    fn write<T: Writable>(&mut self, packet: T) -> (r: Result<usize, Error>)
        ensures
            final(self).spec_inbox() == old(self).spec_inbox(),
            final(self).spec_encoders() == old(self).spec_encoders(),
            packet.write_fits(fresh_wire_view()) && (match packet.spec_write(fresh_wire_view()) {
                Some(enc) => stages_fit(old(self).spec_encoders(), enc),
                None => true,
            }) ==> (match packet.spec_write(fresh_wire_view()) {
                None => r matches Err(e) && packet.spec_write_err(fresh_wire_view(), e)
                    && final(self).spec_sent() == old(self).spec_sent(),
                Some(enc) => match stages_apply(old(self).spec_encoders(), enc) {
                    None => r matches Err(e) && stages_first_error(
                        old(self).spec_encoders(),
                        enc,
                        e,
                    ) && final(self).spec_sent() == old(self).spec_sent(),
                    Some(out) => r matches Ok(n) && n == out.data.len() && final(self).spec_sent()
                        == old(self).spec_sent() + out.data,
                },
            }),
    {
        let buffer = Buffer::empty(true, Some(ByteOrder::BigEndian));
        proof {
            assert(buffer@ =~= fresh_wire_view());
        }
        let buffer = match packet.write(buffer) {
            Ok(b) => b,
            Err(e) => {
                return Err(e);
            },
        };
        let buffer = match self.pipeline.encode(buffer) {
            Ok(b) => b,
            Err(e) => {
                return Err(e);
            },
        };
        let bytes = buffer.to_bytes();
        let n = bytes.len();
        let mut i: usize = 0;
        while i < n
            invariant
                i <= n,
                n == bytes@.len(),
                self.transport.inbox@ == old(self).spec_inbox(),
                self.transport.timeout == old(self).spec_timeout(),
                self.packet_state == old(self).spec_state(),
                self.pipeline.spec_encoders() == old(self).spec_encoders(),
                self.transport.outbox@ == old(self).spec_sent() + bytes@.take(i as int),
            decreases n - i,
        {
            self.transport.outbox.push(bytes[i]);
            i += 1;
            proof {
                assert(old(self).spec_sent() + bytes@.take(i - 1) + seq![bytes@[i - 1]] =~= old(
                    self,
                ).spec_sent() + bytes@.take(i as int));
            }
        }
        proof {
            assert(bytes@.take(n as int) =~= bytes@);
            assert(final(self).spec_sent().take(old(self).spec_sent().len() as int) =~= old(
                self,
            ).spec_sent());
        }
        Ok(n)
    }

    fn read_buffer(&mut self, timeout: Option<u64>, order: ByteOrder) -> (r: Result<
        (Buffer, u64),
        Error,
    >)
        ensures
            old(self).spec_inbox().len() == 0 ==> (r matches Err(e) && e matches Error::NotReadable(
                _,
            ) && final(self).spec_inbox() == old(self).spec_inbox()),
            old(self).spec_inbox().len() > 0 ==> (r matches Ok(t) && t.1 == 0 && t.0@ == (BufView {
                data: old(self).spec_inbox().take(chunk_len(old(self).spec_inbox())),
                position: 0nat,
                writable: true,
                order: Some(order),
            }) && final(self).spec_inbox() == old(self).spec_inbox().skip(
                chunk_len(old(self).spec_inbox()),
            )),
            final(self).spec_encoders() == old(self).spec_encoders(),
    {
        let saved = self.transport.timeout;
        if timeout.is_some() {
            self.transport.timeout = timeout;
        }
        let n = self.transport.inbox.len();
        let k = if n > 1024 {
            1024
        } else {
            n
        };
        if k == 0 {
            self.transport.timeout = saved;
            return Err(Error::NotReadable("the transport held no bytes to read".to_owned()));
        }
        let mut taken: Vec<u8> = Vec::new();
        let mut i: usize = 0;
        while i < k
            invariant
                i <= k,
                k <= n,
                n == self.transport.inbox@.len(),
                self.transport.inbox@ == old(self).spec_inbox(),
                self.packet_state == old(self).spec_state(),
                self.transport.outbox@ == old(self).spec_sent(),
                self.pipeline.spec_encoders() == old(self).spec_encoders(),
                taken@ == old(self).spec_inbox().take(i as int),
            decreases k - i,
        {
            taken.push(self.transport.inbox[i]);
            i += 1;
            proof {
                assert(old(self).spec_inbox().take(i - 1) + seq![old(self).spec_inbox()[i - 1]]
                    =~= old(self).spec_inbox().take(i as int));
            }
        }
        let mut rest: Vec<u8> = Vec::new();
        let mut j: usize = k;
        while j < n
            invariant
                k <= j <= n,
                n == self.transport.inbox@.len(),
                self.transport.inbox@ == old(self).spec_inbox(),
                self.packet_state == old(self).spec_state(),
                self.transport.outbox@ == old(self).spec_sent(),
                self.pipeline.spec_encoders() == old(self).spec_encoders(),
                rest@ == old(self).spec_inbox().subrange(k as int, j as int),
            decreases n - j,
        {
            rest.push(self.transport.inbox[j]);
            j += 1;
            proof {
                assert(old(self).spec_inbox().subrange(k as int, j - 1) + seq![
                    old(self).spec_inbox()[j - 1],
                ] =~= old(self).spec_inbox().subrange(k as int, j as int));
            }
        }
        self.transport.inbox = rest;
        self.transport.timeout = saved;
        proof {
            assert(old(self).spec_inbox().subrange(k as int, n as int) =~= old(
                self,
            ).spec_inbox().skip(k as int));
        }
        Ok((Buffer::new(taken, true, Some(order)), 0))
    }

    fn state(&self) -> (r: PacketState) {
        self.packet_state
    }

    fn bound() -> (r: PacketDirection)
        ensures
            r == PacketDirection::Clientbound,
    {
        PacketDirection::Clientbound
    }
}

} // verus!

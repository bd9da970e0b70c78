//! The frame length-prefix stage: the one concrete pipeline transform.
//!
//! On encode it copies the payload's raw bytes, writes a var-int length
//! prefix for them into a fresh buffer sharing the source buffer's
//! writable flag and byte order, then appends the payload verbatim. The
//! result is a length-prefixed frame from which a stream reader can
//! recover message boundaries.

use vstd::prelude::*;

use crate::network::buffer::{BufView, Buffer, varint_dec, varint_enc};
use crate::network::connection::Writable;
use crate::network::Error;

verus! {

/// The frame length-prefix encoder; it holds no state of its own.
pub struct FrameEncoder {}

impl FrameEncoder {
    pub fn new() -> FrameEncoder {
        FrameEncoder {}
    }
}

/// The frame a payload buffer is wrapped into: a var-int prefix holding
/// the payload's byte count, then the payload bytes verbatim. The cursor
/// stands at the end of the frame, where the two writes that built it
/// left it.
pub open spec fn frame_of(b: BufView) -> BufView {
    BufView {
        data: varint_enc(b.data.len()) + b.data,
        position: varint_enc(b.data.len()).len() + b.data.len(),
        writable: b.writable,
        order: b.order,
    }
}

/// Frame round trip: a frame's length prefix decodes back to exactly the
/// payload's byte count and is consumed exactly, so taking that many
/// bytes after the prefix recovers the payload verbatim. This holds for
/// every payload short enough for its prefix to round-trip through the
/// four-group var-int decoder.
pub proof fn lemma_frame_round_trip(b: BufView)
    requires
        b.data.len() < 0x10000000,
    ensures
        varint_dec(frame_of(b).data) == Some((
            b.data.len() as int,
            varint_enc(b.data.len()).len() as int,
        )),
        frame_of(b).data.skip(varint_enc(b.data.len()).len() as int) == b.data,
{
    crate::network::buffer::lemma_varint_round_trip(b.data.len(), b.data);
    crate::network::buffer::lemma_varint_enc_len(b.data.len());
    assert(frame_of(b).data.skip(varint_enc(b.data.len()).len() as int) =~= b.data);
}

impl Writable for FrameEncoder {
    /// A frame write starts from a fresh buffer, so its cursor always has
    /// room.
    open spec fn write_fits(&self, b: BufView) -> bool {
        true
    }

    /// The transform fails on a non-writable buffer and on a payload too
    /// long for its length prefix; otherwise it produces the frame.
    open spec fn spec_write(&self, b: BufView) -> Option<BufView> {
        if !b.writable {
            None
        } else if b.data.len() > i32::MAX {
            None
        } else {
            Some(frame_of(b))
        }
    }

    /// A payload too long for its prefix fails with the catch-all error;
    /// otherwise the one failure left is the non-writable buffer.
    open spec fn spec_write_err(&self, b: BufView, e: Error) -> bool {
        if b.data.len() > i32::MAX {
            e matches Error::Other(_)
        } else {
            crate::network::connection::is_not_writable_err(e)
        }
    }

    proof fn spec_write_frame(&self, b: BufView) {
    }

    fn write(&self, buffer: Buffer) -> (r: Result<Buffer, Error>)
        ensures
            match r {
                Ok(out) => self.spec_write(buffer@) == Some(out@),
                Err(e) => self.spec_write(buffer@) is None && self.spec_write_err(buffer@, e),
            },
    {
        let buffer_bytes = buffer.to_bytes();
        if buffer_bytes.len() > (i32::MAX as usize) {
            return Err(Error::Other("FrameEncoder cannot prefix a payload this long".to_owned()));
        }
        let mut copied_buffer = buffer.cloned_metadata();
        match copied_buffer.write_var_i32(buffer_bytes.len() as i32) {
            Ok(()) => {},
            Err(e) => {
                return Err(e);
            },
        }
        proof {
            crate::network::buffer::lemma_varint_enc_len(buffer@.data.len());
        }
        match copied_buffer.write_all(buffer_bytes) {
            Ok(()) => {},
            Err(e) => {
                return Err(e);
            },
        }
        proof {
            if buffer@.writable {
                assert(copied_buffer@ =~= frame_of(buffer@));
            }
        }
        Ok(copied_buffer)
    }
}

} // verus!

//! The wire-value contract, the transform pipeline and the connection
//! abstraction.
//!
//! A [`Writable`] value knows how to lay itself down into a [`Buffer`]; a
//! [`Readable`] value knows how to take itself out of one. A [`Pipeline`]
//! applies an ordered list of buffer-to-buffer transform stages on the way
//! out (encode) and on the way in (decode). A [`Connection`] binds a
//! transport to a pipeline, a fixed direction and a protocol state.

use vstd::prelude::*;
use vstd::utf8::encode_utf8;

use crate::network::buffer::{
    BufView, Buffer, failed_out_of_bounds, le_bytes, be_bytes, le_val, be_val, string_dec,
    string_enc, tail_of, varint_dec, varint_enc, read_uint_val, wrote_uint,
};
use crate::network::framing::FrameEncoder;
use crate::network::{ByteOrder, Error, PacketDirection, PacketState};

verus! {

/// The bytes an `n`-byte integer write lays down under the given byte
/// order. When no explicit order is set the machine's own is used, of
/// which nothing is promised; the big-endian form stands in for it here
/// and contracts claim nothing in that case.
pub open spec fn uint_bytes(order: Option<ByteOrder>, v: nat, n: nat) -> Seq<u8> {
    match order {
        Some(ByteOrder::LittleEndian) => le_bytes(v, n),
        _ => be_bytes(v, n),
    }
}

/// The value a run of bytes holds under the given byte order. When no
/// explicit order is set the machine's own is used, of which nothing is
/// promised; the big-endian reading stands in for it here and contracts
/// claim nothing in that case.
pub open spec fn uint_val(order: Option<ByteOrder>, s: Seq<u8>) -> nat {
    match order {
        Some(ByteOrder::LittleEndian) => le_val(s),
        _ => be_val(s),
    }
}

/// A run of `n` bytes holds a value below 256 to the `n`, whichever way
/// it is read.
pub proof fn lemma_uint_val_bound(order: Option<ByteOrder>, s: Seq<u8>)
    ensures
        uint_val(order, s) < crate::network::buffer::pow256(s.len()),
{
    crate::network::buffer::lemma_le_val_bound(s);
    assert(s.reverse().len() == s.len());
    crate::network::buffer::lemma_le_val_bound(s.reverse());
}

/// Fixed-width symmetry: combining the bytes a write lays down, in the
/// same explicit byte order, gives back the value written, for every
/// value `n` bytes can hold.
pub proof fn lemma_uint_round_trip(order: Option<ByteOrder>, v: nat, n: nat)
    requires
        v < crate::network::buffer::pow256(n),
    ensures
        uint_val(order, uint_bytes(order, v, n)) == v,
{
    crate::network::buffer::lemma_le_round_trip(v, n);
    crate::network::buffer::lemma_be_round_trip(v, n);
    crate::network::buffer::lemma_pow256_pos(n);
    vstd::arithmetic::div_mod::lemma_small_mod(v, crate::network::buffer::pow256(n));
}

/// The error every write on a non-writable buffer fails with: it names
/// the buffer.
pub open spec fn is_not_writable_err(e: Error) -> bool {
    e matches Error::NotWritable(s) && s@ == "Buffer"@
}

/// A value type that can serialize itself into a buffer at the cursor.
pub trait Writable: Sized {
    /// True when the buffer's cursor has room for this value: the one
    /// machine limit under which the write's outcome is pinned down.
    spec fn write_fits(&self, b: BufView) -> bool;

    /// The buffer a successful write leaves behind, or `None` when the
    /// write fails. Exact whenever the buffer carries an explicit byte
    /// order.
    spec fn spec_write(&self, b: BufView) -> Option<BufView>;

    /// The errors a failed write may hand back: a write fails with its
    /// own error, which callers pass through unchanged.
    spec fn spec_write_err(&self, b: BufView, e: Error) -> bool;

    /// A write never touches the writable flag or the byte order.
    proof fn spec_write_frame(&self, b: BufView)
        ensures
            self.spec_write(b) matches Some(post) ==> (post.writable == b.writable && post.order
                == b.order),
    ;

    /// Serializes `self` into the buffer and hands the buffer back, or
    /// fails with its own error — the one `spec_write_err` describes —
    /// without handing the buffer back.
    fn write(&self, buffer: Buffer) -> (r: Result<Buffer, Error>)
        ensures
            buffer@.order is Some && self.write_fits(buffer@) ==> (match r {
                Ok(out) => self.spec_write(buffer@) == Some(out@),
                Err(e) => self.spec_write(buffer@) is None && self.spec_write_err(buffer@, e),
            }),
            r matches Ok(out) ==> (out@.writable == buffer@.writable && out@.order
                == buffer@.order),
    ;
}

/// A value type that can deserialize itself from a buffer at the cursor.
pub trait Readable: Sized + DeepView {
    /// The value a read takes at the cursor — as its mathematical view —
    /// and the buffer it leaves behind, or `None` when the read fails.
    /// Exact whenever the buffer carries an explicit byte order.
    spec fn spec_read(b: BufView) -> Option<(Self::V, BufView)>;

    /// Takes `self` out of the buffer at the cursor: exactly the value
    /// `spec_read` names, with the cursor exactly where it says. A read
    /// only moves the cursor forward and never touches the data, the
    /// writable flag or the byte order.
    fn read(buffer: &mut Buffer) -> (r: Result<Self, Error>)
        ensures
            old(buffer)@.order is Some ==> (match Self::spec_read(old(buffer)@) {
                Some(t) => r matches Ok(v) && v.deep_view() == t.0 && final(buffer)@ == t.1,
                None => r is Err,
            }),
            final(buffer)@.data == old(buffer)@.data,
            final(buffer)@.writable == old(buffer)@.writable,
            final(buffer)@.order == old(buffer)@.order,
            final(buffer)@.position >= old(buffer)@.position,
    ;
}

/// One pipeline stage: a named, ordered, single-purpose buffer transform.
/// Today's only stage is the frame length-prefix encoder; compression and
/// encryption are expected as further variants.
pub enum Stage {
    Frame(FrameEncoder),
}

impl Stage {
    /// The buffer this stage's transform produces, or `None` when it
    /// fails.
    pub open spec fn spec_transform(&self, b: BufView) -> Option<BufView> {
        match self {
            Stage::Frame(f) => f.spec_write(b),
        }
    }

    /// True when the transform's outcome is pinned down.
    pub open spec fn transform_fits(&self, b: BufView) -> bool {
        match self {
            Stage::Frame(f) => f.write_fits(b),
        }
    }

    /// The errors a failed transform may hand back: its own, which the
    /// pipeline passes through unchanged.
    pub open spec fn spec_transform_err(&self, b: BufView, e: Error) -> bool {
        match self {
            Stage::Frame(f) => f.spec_write_err(b, e),
        }
    }

    /// Applies the stage's transform to the buffer.
    pub fn transform(&self, buffer: Buffer) -> (r: Result<Buffer, Error>)
        ensures
            self.transform_fits(buffer@) ==> (match r {
                Ok(out) => self.spec_transform(buffer@) == Some(out@),
                Err(e) => self.spec_transform(buffer@) is None && self.spec_transform_err(
                    buffer@,
                    e,
                ),
            }),
            r matches Ok(out) ==> (out@.writable == buffer@.writable && out@.order
                == buffer@.order),
    {
        match self {
            Stage::Frame(f) => f.write(buffer),
        }
    }
}

/// The buffer left after applying each stage in order, or `None` as soon
/// as one fails.
pub open spec fn stages_apply(stages: Seq<(Option<String>, Stage)>, b: BufView) -> Option<BufView>
    decreases stages.len(),
{
    if stages.len() == 0 {
        Some(b)
    } else {
        match stages[0].1.spec_transform(b) {
            None => None,
            Some(nb) => stages_apply(stages.drop_first(), nb),
        }
    }
}

/// True when every stage's transform, applied in order, is pinned down.
pub open spec fn stages_fit(stages: Seq<(Option<String>, Stage)>, b: BufView) -> bool
    decreases stages.len(),
{
    if stages.len() == 0 {
        true
    } else {
        stages[0].1.transform_fits(b) && (match stages[0].1.spec_transform(b) {
            None => true,
            Some(nb) => stages_fit(stages.drop_first(), nb),
        })
    }
}

/// The error a failed stage chain hands back: the first failing stage's
/// own error, unchanged; later stages are never reached.
pub open spec fn stages_first_error(
    stages: Seq<(Option<String>, Stage)>,
    b: BufView,
    e: Error,
) -> bool
    decreases stages.len(),
{
    if stages.len() == 0 {
        false
    } else {
        match stages[0].1.spec_transform(b) {
            None => stages[0].1.spec_transform_err(b, e),
            Some(nb) => stages_first_error(stages.drop_first(), nb, e),
        }
    }
}

/// Pipeline identity: a pipeline with no stages hands its input buffer
/// back unchanged, from encode and decode alike.
pub proof fn lemma_empty_pipeline_identity(b: BufView)
    ensures
        stages_apply(Seq::<(Option<String>, Stage)>::empty(), b) == Some(b),
        stages_fit(Seq::<(Option<String>, Stage)>::empty(), b),
{
}

/// An ordered, named list of transform stages, applied independently for
/// outbound (encode) and inbound (decode) traffic. Names are diagnostic
/// only and never used for lookup.
pub struct Pipeline {
    encoder_pipeline: Vec<(Option<String>, Stage)>,
    decoder_pipeline: Vec<(Option<String>, Stage)>,
}

impl Pipeline {
    /// The encoder stages, in application order.
    pub closed spec fn spec_encoders(&self) -> Seq<(Option<String>, Stage)> {
        self.encoder_pipeline@
    }

    /// The decoder stages, in application order.
    pub closed spec fn spec_decoders(&self) -> Seq<(Option<String>, Stage)> {
        self.decoder_pipeline@
    }

    /// A pipeline with no stages: encode and decode leave their input
    /// unchanged.
    pub fn new() -> (r: Pipeline)
        ensures
            r.spec_encoders() == Seq::<(Option<String>, Stage)>::empty(),
            r.spec_decoders() == Seq::<(Option<String>, Stage)>::empty(),
    {
        Pipeline { encoder_pipeline: Vec::new(), decoder_pipeline: Vec::new() }
    }

    /// Appends an encoder stage, preserving insertion order.
    pub fn add_last_encoder(self, encoder: Stage, name: Option<String>) -> (r: Pipeline)
        ensures
            r.spec_encoders() == self.spec_encoders().push((name, encoder)),
            r.spec_decoders() == self.spec_decoders(),
    {
        let mut this = self;
        this.encoder_pipeline.push((name, encoder));
        this
    }

    /// Appends a decoder stage, preserving insertion order.
    pub fn add_last_decoder(self, decoder: Stage, name: Option<String>) -> (r: Pipeline)
        ensures
            r.spec_decoders() == self.spec_decoders().push((name, decoder)),
            r.spec_encoders() == self.spec_encoders(),
    {
        let mut this = self;
        this.decoder_pipeline.push((name, decoder));
        this
    }

    /// Applies each encoder stage in insertion order, stopping at the
    /// first failure. With no stages the input comes back unchanged.
    pub fn encode(&self, buffer: Buffer) -> (r: Result<Buffer, Error>)
        ensures
            stages_fit(self.spec_encoders(), buffer@) ==> (match stages_apply(
                self.spec_encoders(),
                buffer@,
            ) {
                Some(out) => r matches Ok(b) && b@ == out,
                None => r matches Err(e) && stages_first_error(self.spec_encoders(), buffer@, e),
            }),
            r matches Ok(out) ==> (out@.writable == buffer@.writable && out@.order
                == buffer@.order),
    {
        apply_stages(&self.encoder_pipeline, buffer)
    }

    /// Applies each decoder stage in insertion order, stopping at the
    /// first failure. With no stages the input comes back unchanged.
    pub fn decode(&self, buffer: Buffer) -> (r: Result<Buffer, Error>)
        ensures
            stages_fit(self.spec_decoders(), buffer@) ==> (match stages_apply(
                self.spec_decoders(),
                buffer@,
            ) {
                Some(out) => r matches Ok(b) && b@ == out,
                None => r matches Err(e) && stages_first_error(self.spec_decoders(), buffer@, e),
            }),
            r matches Ok(out) ==> (out@.writable == buffer@.writable && out@.order
                == buffer@.order),
    {
        apply_stages(&self.decoder_pipeline, buffer)
    }
}

/// Folds a stage list over a buffer, stopping at the first failure.
fn apply_stages(stages: &Vec<(Option<String>, Stage)>, buffer: Buffer) -> (r: Result<Buffer, Error>)
    ensures
        stages_fit(stages@, buffer@) ==> (match stages_apply(stages@, buffer@) {
            Some(out) => r matches Ok(b) && b@ == out,
            None => r matches Err(e) && stages_first_error(stages@, buffer@, e),
        }),
        r matches Ok(out) ==> (out@.writable == buffer@.writable && out@.order == buffer@.order),
{
    let n = stages.len();
    let mut cur = buffer;
    let mut i: usize = 0;
    proof {
        assert(stages@.skip(0) =~= stages@);
    }
    while i < n
        invariant
            i <= n,
            n == stages@.len(),
            cur@.writable == buffer@.writable,
            cur@.order == buffer@.order,
            stages_apply(stages@.skip(i as int), cur@) == stages_apply(stages@, buffer@),
            stages_fit(stages@, buffer@) ==> stages_fit(stages@.skip(i as int), cur@),
            stages_fit(stages@, buffer@) ==> (forall|e: Error|
                stages_first_error(stages@.skip(i as int), cur@, e) ==> stages_first_error(
                    stages@,
                    buffer@,
                    e,
                )),
        decreases n - i,
    {
        let ghost pre = cur@;
        let next = match stages[i].1.transform(cur) {
            Ok(b) => b,
            Err(e) => {
                proof {
                    if stages_fit(stages@, buffer@) {
                        assert(stages@.skip(i as int)[0] == stages@[i as int]);
                        assert(stages_first_error(stages@.skip(i as int), cur@, e));
                    }
                }
                return Err(e);
            },
        };
        cur = next;
        i += 1;
        proof {
            assert(stages@.skip(i - 1).drop_first() =~= stages@.skip(i as int));
            assert(stages@.skip(i - 1)[0] == stages@[i - 1]);
        }
    }
    Ok(cur)
}

impl Writable for u8 {
    open spec fn write_fits(&self, b: BufView) -> bool {
        b.position + 1 <= usize::MAX
    }

    open spec fn spec_write(&self, b: BufView) -> Option<BufView> {
        if b.writable {
            Some(b.wrote(seq![*self]))
        } else {
            None
        }
    }

    open spec fn spec_write_err(&self, b: BufView, e: Error) -> bool {
        is_not_writable_err(e)
    }

    proof fn spec_write_frame(&self, b: BufView) {
    }

    fn write(&self, buffer: Buffer) -> (r: Result<Buffer, Error>)
        ensures
            self.write_fits(buffer@) ==> (match r {
                Ok(out) => self.spec_write(buffer@) == Some(out@),
                Err(e) => self.spec_write(buffer@) is None && self.spec_write_err(buffer@, e),
            }),
    {
        let mut buffer = buffer;
        match buffer.write_u8(*self) {
            Ok(()) => Ok(buffer),
            Err(e) => Err(e),
        }
    }
}

impl Readable for u8 {
    open spec fn spec_read(b: BufView) -> Option<(u8, BufView)> {
        if b.can_read(1) {
            Some((b.data[b.position as int], b.advanced(1)))
        } else {
            None
        }
    }

    fn read(buffer: &mut Buffer) -> (r: Result<u8, Error>)
        ensures
            old(buffer)@.can_read(1) ==> (r matches Ok(v) && v == old(buffer)@.data[old(
                buffer,
            )@.position as int] && final(buffer)@ == old(buffer)@.advanced(1)),
            !old(buffer)@.can_read(1) ==> failed_out_of_bounds(old(buffer)@, final(buffer)@, r),
    {
        buffer.read_u8()
    }
}

impl Writable for u16 {
    open spec fn write_fits(&self, b: BufView) -> bool {
        b.position + 2 <= usize::MAX
    }

    open spec fn spec_write(&self, b: BufView) -> Option<BufView> {
        if b.writable {
            Some(b.wrote(uint_bytes(b.order, *self as nat, 2)))
        } else {
            None
        }
    }

    open spec fn spec_write_err(&self, b: BufView, e: Error) -> bool {
        is_not_writable_err(e)
    }

    proof fn spec_write_frame(&self, b: BufView) {
    }

    fn write(&self, buffer: Buffer) -> (r: Result<Buffer, Error>)
        ensures
            self.write_fits(buffer@) ==> (match r {
                Ok(out) => buffer@.writable && wrote_uint(buffer@, out@, *self as nat, 2),
                Err(e) => !buffer@.writable && is_not_writable_err(e),
            }),
    {
        let mut buffer = buffer;
        match buffer.write_u16(*self) {
            Ok(()) => Ok(buffer),
            Err(e) => Err(e),
        }
    }
}

impl Readable for u16 {
    open spec fn spec_read(b: BufView) -> Option<(u16, BufView)> {
        if b.can_read(2) {
            Some(((uint_val(b.order, b.at_cursor(2)) as u16), b.advanced(2)))
        } else {
            None
        }
    }

    fn read(buffer: &mut Buffer) -> (r: Result<u16, Error>)
        ensures
            old(buffer)@.can_read(2) ==> (r matches Ok(v) && read_uint_val(
                old(buffer)@,
                v as nat,
                2,
            ) && final(buffer)@ == old(buffer)@.advanced(2)),
            !old(buffer)@.can_read(2) ==> failed_out_of_bounds(old(buffer)@, final(buffer)@, r),
    {
        proof {
            crate::network::buffer::lemma_pow256_values();
            lemma_uint_val_bound(old(buffer)@.order, old(buffer)@.at_cursor(2));
        }
        buffer.read_u16()
    }
}

impl Writable for u32 {
    open spec fn write_fits(&self, b: BufView) -> bool {
        b.position + 4 <= usize::MAX
    }

    open spec fn spec_write(&self, b: BufView) -> Option<BufView> {
        if b.writable {
            Some(b.wrote(uint_bytes(b.order, *self as nat, 4)))
        } else {
            None
        }
    }

    open spec fn spec_write_err(&self, b: BufView, e: Error) -> bool {
        is_not_writable_err(e)
    }

    proof fn spec_write_frame(&self, b: BufView) {
    }

    fn write(&self, buffer: Buffer) -> (r: Result<Buffer, Error>)
        ensures
            self.write_fits(buffer@) ==> (match r {
                Ok(out) => buffer@.writable && wrote_uint(buffer@, out@, *self as nat, 4),
                Err(e) => !buffer@.writable && is_not_writable_err(e),
            }),
    {
        let mut buffer = buffer;
        match buffer.write_u32(*self) {
            Ok(()) => Ok(buffer),
            Err(e) => Err(e),
        }
    }
}

impl Readable for u32 {
    open spec fn spec_read(b: BufView) -> Option<(u32, BufView)> {
        if b.can_read(4) {
            Some(((uint_val(b.order, b.at_cursor(4)) as u32), b.advanced(4)))
        } else {
            None
        }
    }

    fn read(buffer: &mut Buffer) -> (r: Result<u32, Error>)
        ensures
            old(buffer)@.can_read(4) ==> (r matches Ok(v) && read_uint_val(
                old(buffer)@,
                v as nat,
                4,
            ) && final(buffer)@ == old(buffer)@.advanced(4)),
            !old(buffer)@.can_read(4) ==> failed_out_of_bounds(old(buffer)@, final(buffer)@, r),
    {
        proof {
            crate::network::buffer::lemma_pow256_values();
            lemma_uint_val_bound(old(buffer)@.order, old(buffer)@.at_cursor(4));
        }
        buffer.read_u32()
    }
}

impl Writable for u64 {
    open spec fn write_fits(&self, b: BufView) -> bool {
        b.position + 8 <= usize::MAX
    }

    open spec fn spec_write(&self, b: BufView) -> Option<BufView> {
        if b.writable {
            Some(b.wrote(uint_bytes(b.order, *self as nat, 8)))
        } else {
            None
        }
    }

    open spec fn spec_write_err(&self, b: BufView, e: Error) -> bool {
        is_not_writable_err(e)
    }

    proof fn spec_write_frame(&self, b: BufView) {
    }

    fn write(&self, buffer: Buffer) -> (r: Result<Buffer, Error>)
        ensures
            self.write_fits(buffer@) ==> (match r {
                Ok(out) => buffer@.writable && wrote_uint(buffer@, out@, *self as nat, 8),
                Err(e) => !buffer@.writable && is_not_writable_err(e),
            }),
    {
        let mut buffer = buffer;
        match buffer.write_u64(*self) {
            Ok(()) => Ok(buffer),
            Err(e) => Err(e),
        }
    }
}

impl Readable for u64 {
    open spec fn spec_read(b: BufView) -> Option<(u64, BufView)> {
        if b.can_read(8) {
            Some(((uint_val(b.order, b.at_cursor(8)) as u64), b.advanced(8)))
        } else {
            None
        }
    }

    fn read(buffer: &mut Buffer) -> (r: Result<u64, Error>)
        ensures
            old(buffer)@.can_read(8) ==> (r matches Ok(v) && read_uint_val(
                old(buffer)@,
                v as nat,
                8,
            ) && final(buffer)@ == old(buffer)@.advanced(8)),
            !old(buffer)@.can_read(8) ==> failed_out_of_bounds(old(buffer)@, final(buffer)@, r),
    {
        proof {
            crate::network::buffer::lemma_pow256_values();
            lemma_uint_val_bound(old(buffer)@.order, old(buffer)@.at_cursor(8));
        }
        buffer.read_u64()
    }
}

impl Writable for i8 {
    open spec fn write_fits(&self, b: BufView) -> bool {
        b.position + 1 <= usize::MAX
    }

    open spec fn spec_write(&self, b: BufView) -> Option<BufView> {
        if b.writable {
            Some(b.wrote(uint_bytes(b.order, (*self as u8) as nat, 1)))
        } else {
            None
        }
    }

    open spec fn spec_write_err(&self, b: BufView, e: Error) -> bool {
        is_not_writable_err(e)
    }

    proof fn spec_write_frame(&self, b: BufView) {
    }

    fn write(&self, buffer: Buffer) -> (r: Result<Buffer, Error>)
        ensures
            self.write_fits(buffer@) ==> (match r {
                Ok(out) => buffer@.writable && wrote_uint(buffer@, out@, (*self as u8) as nat, 1),
                Err(e) => !buffer@.writable && is_not_writable_err(e),
            }),
    {
        let mut buffer = buffer;
        match buffer.write_i8(*self) {
            Ok(()) => Ok(buffer),
            Err(e) => Err(e),
        }
    }
}

impl Readable for i8 {
    open spec fn spec_read(b: BufView) -> Option<(i8, BufView)> {
        if b.can_read(1) {
            Some((((uint_val(b.order, b.at_cursor(1)) as u8) as i8), b.advanced(1)))
        } else {
            None
        }
    }

    fn read(buffer: &mut Buffer) -> (r: Result<i8, Error>)
        ensures
            old(buffer)@.can_read(1) ==> (r matches Ok(v) && read_uint_val(
                old(buffer)@,
                (v as u8) as nat,
                1,
            ) && final(buffer)@ == old(buffer)@.advanced(1)),
            !old(buffer)@.can_read(1) ==> failed_out_of_bounds(old(buffer)@, final(buffer)@, r),
    {
        let r = buffer.read_i8();
        proof {
            crate::network::buffer::lemma_pow256_values();
            lemma_uint_val_bound(old(buffer)@.order, old(buffer)@.at_cursor(1));
            match r {
                Ok(v) => {
                    assert((v as u8) as i8 == v) by (bit_vector);
                },
                Err(_) => {},
            }
        }
        r
    }
}

impl Writable for i16 {
    open spec fn write_fits(&self, b: BufView) -> bool {
        b.position + 2 <= usize::MAX
    }

    open spec fn spec_write(&self, b: BufView) -> Option<BufView> {
        if b.writable {
            Some(b.wrote(uint_bytes(b.order, (*self as u16) as nat, 2)))
        } else {
            None
        }
    }

    open spec fn spec_write_err(&self, b: BufView, e: Error) -> bool {
        is_not_writable_err(e)
    }

    proof fn spec_write_frame(&self, b: BufView) {
    }

    fn write(&self, buffer: Buffer) -> (r: Result<Buffer, Error>)
        ensures
            self.write_fits(buffer@) ==> (match r {
                Ok(out) => buffer@.writable && wrote_uint(buffer@, out@, (*self as u16) as nat, 2),
                Err(e) => !buffer@.writable && is_not_writable_err(e),
            }),
    {
        let mut buffer = buffer;
        match buffer.write_i16(*self) {
            Ok(()) => Ok(buffer),
            Err(e) => Err(e),
        }
    }
}

impl Readable for i16 {
    open spec fn spec_read(b: BufView) -> Option<(i16, BufView)> {
        if b.can_read(2) {
            Some((((uint_val(b.order, b.at_cursor(2)) as u16) as i16), b.advanced(2)))
        } else {
            None
        }
    }

    fn read(buffer: &mut Buffer) -> (r: Result<i16, Error>)
        ensures
            old(buffer)@.can_read(2) ==> (r matches Ok(v) && read_uint_val(
                old(buffer)@,
                (v as u16) as nat,
                2,
            ) && final(buffer)@ == old(buffer)@.advanced(2)),
            !old(buffer)@.can_read(2) ==> failed_out_of_bounds(old(buffer)@, final(buffer)@, r),
    {
        let r = buffer.read_i16();
        proof {
            crate::network::buffer::lemma_pow256_values();
            lemma_uint_val_bound(old(buffer)@.order, old(buffer)@.at_cursor(2));
            match r {
                Ok(v) => {
                    assert((v as u16) as i16 == v) by (bit_vector);
                },
                Err(_) => {},
            }
        }
        r
    }
}

impl Writable for i32 {
    open spec fn write_fits(&self, b: BufView) -> bool {
        b.position + 4 <= usize::MAX
    }

    open spec fn spec_write(&self, b: BufView) -> Option<BufView> {
        if b.writable {
            Some(b.wrote(uint_bytes(b.order, (*self as u32) as nat, 4)))
        } else {
            None
        }
    }

    open spec fn spec_write_err(&self, b: BufView, e: Error) -> bool {
        is_not_writable_err(e)
    }

    proof fn spec_write_frame(&self, b: BufView) {
    }

    fn write(&self, buffer: Buffer) -> (r: Result<Buffer, Error>)
        ensures
            self.write_fits(buffer@) ==> (match r {
                Ok(out) => buffer@.writable && wrote_uint(buffer@, out@, (*self as u32) as nat, 4),
                Err(e) => !buffer@.writable && is_not_writable_err(e),
            }),
    {
        let mut buffer = buffer;
        match buffer.write_i32(*self) {
            Ok(()) => Ok(buffer),
            Err(e) => Err(e),
        }
    }
}

impl Readable for i32 {
    open spec fn spec_read(b: BufView) -> Option<(i32, BufView)> {
        if b.can_read(4) {
            Some((((uint_val(b.order, b.at_cursor(4)) as u32) as i32), b.advanced(4)))
        } else {
            None
        }
    }

    fn read(buffer: &mut Buffer) -> (r: Result<i32, Error>)
        ensures
            old(buffer)@.can_read(4) ==> (r matches Ok(v) && read_uint_val(
                old(buffer)@,
                (v as u32) as nat,
                4,
            ) && final(buffer)@ == old(buffer)@.advanced(4)),
            !old(buffer)@.can_read(4) ==> failed_out_of_bounds(old(buffer)@, final(buffer)@, r),
    {
        let r = buffer.read_i32();
        proof {
            crate::network::buffer::lemma_pow256_values();
            lemma_uint_val_bound(old(buffer)@.order, old(buffer)@.at_cursor(4));
            match r {
                Ok(v) => {
                    assert((v as u32) as i32 == v) by (bit_vector);
                },
                Err(_) => {},
            }
        }
        r
    }
}

impl Writable for i64 {
    open spec fn write_fits(&self, b: BufView) -> bool {
        b.position + 8 <= usize::MAX
    }

    open spec fn spec_write(&self, b: BufView) -> Option<BufView> {
        if b.writable {
            Some(b.wrote(uint_bytes(b.order, (*self as u64) as nat, 8)))
        } else {
            None
        }
    }

    open spec fn spec_write_err(&self, b: BufView, e: Error) -> bool {
        is_not_writable_err(e)
    }

    proof fn spec_write_frame(&self, b: BufView) {
    }

    fn write(&self, buffer: Buffer) -> (r: Result<Buffer, Error>)
        ensures
            self.write_fits(buffer@) ==> (match r {
                Ok(out) => buffer@.writable && wrote_uint(buffer@, out@, (*self as u64) as nat, 8),
                Err(e) => !buffer@.writable && is_not_writable_err(e),
            }),
    {
        let mut buffer = buffer;
        match buffer.write_i64(*self) {
            Ok(()) => Ok(buffer),
            Err(e) => Err(e),
        }
    }
}

impl Readable for i64 {
    open spec fn spec_read(b: BufView) -> Option<(i64, BufView)> {
        if b.can_read(8) {
            Some((((uint_val(b.order, b.at_cursor(8)) as u64) as i64), b.advanced(8)))
        } else {
            None
        }
    }

    fn read(buffer: &mut Buffer) -> (r: Result<i64, Error>)
        ensures
            old(buffer)@.can_read(8) ==> (r matches Ok(v) && read_uint_val(
                old(buffer)@,
                (v as u64) as nat,
                8,
            ) && final(buffer)@ == old(buffer)@.advanced(8)),
            !old(buffer)@.can_read(8) ==> failed_out_of_bounds(old(buffer)@, final(buffer)@, r),
    {
        let r = buffer.read_i64();
        proof {
            crate::network::buffer::lemma_pow256_values();
            lemma_uint_val_bound(old(buffer)@.order, old(buffer)@.at_cursor(8));
            match r {
                Ok(v) => {
                    assert((v as u64) as i64 == v) by (bit_vector);
                },
                Err(_) => {},
            }
        }
        r
    }
}

/// A 32-bit value that goes on the wire in the var-int form rather than
/// as four fixed bytes.
pub struct VarI32 {
    pub value: i32,
}

impl Writable for VarI32 {
    open spec fn write_fits(&self, b: BufView) -> bool {
        b.position + 5 <= usize::MAX
    }

    open spec fn spec_write(&self, b: BufView) -> Option<BufView> {
        if b.writable {
            Some(b.wrote(varint_enc((self.value as u32) as nat)))
        } else {
            None
        }
    }

    open spec fn spec_write_err(&self, b: BufView, e: Error) -> bool {
        is_not_writable_err(e)
    }

    proof fn spec_write_frame(&self, b: BufView) {
    }

    fn write(&self, buffer: Buffer) -> (r: Result<Buffer, Error>)
        ensures
            self.write_fits(buffer@) ==> (match r {
                Ok(out) => self.spec_write(buffer@) == Some(out@),
                Err(e) => self.spec_write(buffer@) is None && self.spec_write_err(buffer@, e),
            }),
    {
        let mut buffer = buffer;
        match buffer.write_var_i32(self.value) {
            Ok(()) => Ok(buffer),
            Err(e) => Err(e),
        }
    }
}

impl View for VarI32 {
    type V = i32;

    open spec fn view(&self) -> i32 {
        self.value
    }
}

impl DeepView for VarI32 {
    type V = i32;

    open spec fn deep_view(&self) -> i32 {
        self.value
    }
}

impl Readable for VarI32 {
    open spec fn spec_read(b: BufView) -> Option<(i32, BufView)> {
        match varint_dec(tail_of(b)) {
            Some(t) => Some((t.0 as i32, b.advanced(t.1 as nat))),
            None => None,
        }
    }

    fn read(buffer: &mut Buffer) -> (r: Result<VarI32, Error>)
        ensures
            varint_dec(tail_of(old(buffer)@)) matches Some(t) ==> (r matches Ok(v) && v.value
                == t.0 && final(buffer)@ == old(buffer)@.advanced(t.1 as nat)),
            varint_dec(tail_of(old(buffer)@)) is None ==> failed_out_of_bounds(
                old(buffer)@,
                final(buffer)@,
                r,
            ),
    {
        proof {
            crate::network::buffer::lemma_varint_dec_bounds(tail_of(old(buffer)@), 4);
            crate::network::buffer::lemma_pow128_4();
        }
        match buffer.read_var_i32() {
            Ok(v) => Ok(VarI32 { value: v }),
            Err(e) => Err(e),
        }
    }
}

impl Writable for String {
    open spec fn write_fits(&self, b: BufView) -> bool {
        b.position + 5 + encode_utf8(self@).len() <= usize::MAX
    }

    open spec fn spec_write(&self, b: BufView) -> Option<BufView> {
        if !b.writable {
            None
        } else if encode_utf8(self@).len() > i32::MAX {
            None
        } else {
            Some(b.wrote(string_enc(self@)))
        }
    }

    open spec fn spec_write_err(&self, b: BufView, e: Error) -> bool {
        if !b.writable {
            is_not_writable_err(e)
        } else {
            e matches Error::Other(_)
        }
    }

    proof fn spec_write_frame(&self, b: BufView) {
    }

    fn write(&self, buffer: Buffer) -> (r: Result<Buffer, Error>)
        ensures
            self.write_fits(buffer@) ==> (match r {
                Ok(out) => self.spec_write(buffer@) == Some(out@),
                Err(e) => self.spec_write(buffer@) is None && self.spec_write_err(buffer@, e),
            }),
    {
        let mut buffer = buffer;
        match buffer.write_string(self.clone()) {
            Ok(()) => Ok(buffer),
            Err(e) => Err(e),
        }
    }
}

impl Readable for String {
    open spec fn spec_read(b: BufView) -> Option<(Seq<char>, BufView)> {
        match string_dec(tail_of(b)) {
            Some(t) => Some((t.0, b.advanced(t.1 as nat))),
            None => None,
        }
    }

    fn read(buffer: &mut Buffer) -> (r: Result<String, Error>)
        ensures
            string_dec(tail_of(old(buffer)@)) matches Some(t) ==> (r matches Ok(s) && s@ == t.0
                && final(buffer)@ == old(buffer)@.advanced(t.1 as nat)),
            varint_dec(tail_of(old(buffer)@)) is None ==> failed_out_of_bounds(
                old(buffer)@,
                final(buffer)@,
                r,
            ),
            string_dec(tail_of(old(buffer)@)) is None ==> r is Err,
    {
        buffer.read_string()
    }
}

/// A universally unique identifier as the two 64-bit halves it travels
/// as, most significant half first. The transport reads and writes just
/// these two numbers; parsing and formatting textual identifiers belong
/// to the callers.
#[derive(Clone, Copy, PartialEq, Eq, Structural, Debug)]
pub struct UuidValue {
    pub most_significant: u64,
    pub least_significant: u64,
}

impl Writable for UuidValue {
    open spec fn write_fits(&self, b: BufView) -> bool {
        b.position + 16 <= usize::MAX
    }

    open spec fn spec_write(&self, b: BufView) -> Option<BufView> {
        if b.writable {
            Some(
                b.wrote(
                    uint_bytes(b.order, self.most_significant as nat, 8) + uint_bytes(
                        b.order,
                        self.least_significant as nat,
                        8,
                    ),
                ),
            )
        } else {
            None
        }
    }

    open spec fn spec_write_err(&self, b: BufView, e: Error) -> bool {
        is_not_writable_err(e)
    }

    proof fn spec_write_frame(&self, b: BufView) {
    }

    fn write(&self, buffer: Buffer) -> (r: Result<Buffer, Error>)
        ensures
            self.write_fits(buffer@) ==> (match r {
                Ok(out) => buffer@.writable && (exists|mid: BufView|
                    wrote_uint(buffer@, mid, self.most_significant as nat, 8) && wrote_uint(
                        mid,
                        out@,
                        self.least_significant as nat,
                        8,
                    )),
                Err(e) => !buffer@.writable && is_not_writable_err(e),
            }),
    {
        let ghost pre = buffer@;
        let mut buffer = buffer;
        proof {
            crate::network::buffer::lemma_le_bytes_len(self.most_significant as nat, 8);
            crate::network::buffer::lemma_le_bytes_len(self.least_significant as nat, 8);
        }
        match buffer.write_u64(self.most_significant) {
            Ok(()) => {},
            Err(e) => {
                return Err(e);
            },
        }
        let ghost mid = buffer@;
        match buffer.write_u64(self.least_significant) {
            Ok(()) => {},
            Err(e) => {
                return Err(e);
            },
        }
        proof {
            if pre.order is Some && pre.writable && pre.position + 16 <= usize::MAX {
                assert(buffer@ =~= pre.wrote(
                    uint_bytes(pre.order, self.most_significant as nat, 8) + uint_bytes(
                        pre.order,
                        self.least_significant as nat,
                        8,
                    ),
                ));
            }
        }
        Ok(buffer)
    }
}

impl View for UuidValue {
    type V = UuidValue;

    open spec fn view(&self) -> UuidValue {
        *self
    }
}

impl DeepView for UuidValue {
    type V = UuidValue;

    open spec fn deep_view(&self) -> UuidValue {
        *self
    }
}

impl Readable for UuidValue {
    open spec fn spec_read(b: BufView) -> Option<(UuidValue, BufView)> {
        if b.can_read(16) {
            Some(
                (
                    UuidValue {
                        most_significant: uint_val(b.order, b.at_cursor(8)) as u64,
                        least_significant: uint_val(b.order, b.advanced(8).at_cursor(8)) as u64,
                    },
                    b.advanced(16),
                ),
            )
        } else {
            None
        }
    }

    fn read(buffer: &mut Buffer) -> (r: Result<UuidValue, Error>)
        ensures
            old(buffer)@.can_read(16) ==> (r matches Ok(u) && read_uint_val(
                old(buffer)@,
                u.most_significant as nat,
                8,
            ) && read_uint_val(old(buffer)@.advanced(8), u.least_significant as nat, 8)
                && final(buffer)@ == old(buffer)@.advanced(16)),
            !old(buffer)@.can_read(16) ==> failed_out_of_bounds(old(buffer)@, final(buffer)@, r),
    {
        proof {
            crate::network::buffer::lemma_pow256_values();
            lemma_uint_val_bound(old(buffer)@.order, old(buffer)@.at_cursor(8));
            lemma_uint_val_bound(old(buffer)@.order, old(buffer)@.advanced(8).at_cursor(8));
        }
        let most_significant = match buffer.read_u64() {
            Ok(v) => v,
            Err(e) => {
                return Err(e);
            },
        };
        let least_significant = match buffer.read_u64() {
            Ok(v) => v,
            Err(e) => {
                return Err(e);
            },
        };
        Ok(UuidValue { most_significant, least_significant })
    }
}

/// The buffer left after each element lays itself down in order, or
/// `None` as soon as one write fails.
pub open spec fn seq_spec_write<T: Writable>(elems: Seq<T>, b: BufView) -> Option<BufView>
    decreases elems.len(),
{
    if elems.len() == 0 {
        Some(b)
    } else {
        match elems[0].spec_write(b) {
            None => None,
            Some(nb) => seq_spec_write(elems.drop_first(), nb),
        }
    }
}

/// True when every element's write, applied in order, is pinned down.
pub open spec fn seq_write_fits<T: Writable>(elems: Seq<T>, b: BufView) -> bool
    decreases elems.len(),
{
    if elems.len() == 0 {
        true
    } else {
        elems[0].write_fits(b) && (match elems[0].spec_write(b) {
            None => true,
            Some(nb) => seq_write_fits(elems.drop_first(), nb),
        })
    }
}

/// The error a failed chain of element writes hands back: the first
/// failing element's own error, unchanged.
pub open spec fn seq_write_err<T: Writable>(elems: Seq<T>, b: BufView, e: Error) -> bool
    decreases elems.len(),
{
    if elems.len() == 0 {
        false
    } else {
        match elems[0].spec_write(b) {
            None => elems[0].spec_write_err(b, e),
            Some(nb) => seq_write_err(elems.drop_first(), nb, e),
        }
    }
}

/// A chain of element writes never touches the writable flag or the byte
/// order.
pub proof fn seq_spec_write_frame<T: Writable>(elems: Seq<T>, b: BufView)
    ensures
        seq_spec_write(elems, b) matches Some(post) ==> (post.writable == b.writable && post.order
            == b.order),
    decreases elems.len(),
{
    if elems.len() > 0 {
        elems[0].spec_write_frame(b);
        match elems[0].spec_write(b) {
            Some(nb) => {
                seq_spec_write_frame(elems.drop_first(), nb);
            },
            None => {},
        }
    }
}

impl<T: Writable> Writable for Vec<T> {
    open spec fn write_fits(&self, b: BufView) -> bool {
        &&& b.position + 5 <= usize::MAX
        &&& (b.writable && self@.len() <= i32::MAX ==> seq_write_fits(
            self@,
            b.wrote(varint_enc(self@.len() as nat)),
        ))
    }

    open spec fn spec_write(&self, b: BufView) -> Option<BufView> {
        if !b.writable {
            None
        } else if self@.len() > i32::MAX {
            None
        } else {
            seq_spec_write(self@, b.wrote(varint_enc(self@.len() as nat)))
        }
    }

    open spec fn spec_write_err(&self, b: BufView, e: Error) -> bool {
        if self@.len() > i32::MAX {
            e matches Error::Other(_)
        } else if !b.writable {
            is_not_writable_err(e)
        } else {
            seq_write_err(self@, b.wrote(varint_enc(self@.len() as nat)), e)
        }
    }

    proof fn spec_write_frame(&self, b: BufView) {
        if b.writable && self@.len() <= i32::MAX {
            seq_spec_write_frame(self@, b.wrote(varint_enc(self@.len() as nat)));
        }
    }

    #[verifier::loop_isolation(false)]
    fn write(&self, buffer: Buffer) -> (r: Result<Buffer, Error>) {
        let mut cur = buffer;
        let n = self.len();
        if n > (i32::MAX as usize) {
            return Err(Error::Other("sequence too long for its count prefix".to_owned()));
        }
        proof {
            crate::network::buffer::lemma_varint_enc_len(n as nat);
        }
        match cur.write_var_i32(n as i32) {
            Ok(()) => {},
            Err(e) => {
                return Err(e);
            },
        }
        let ghost start = cur@;
        let mut i: usize = 0;
        proof {
            assert(self@.skip(0) =~= self@);
        }
        while i < n
            invariant
                i <= n,
                n == self@.len() <= i32::MAX,
                cur@.writable == buffer@.writable,
                cur@.order == buffer@.order,
                buffer@.order is Some && self.write_fits(buffer@) && buffer@.writable ==> (
                seq_spec_write(self@.skip(i as int), cur@) == seq_spec_write(self@, start)
                    && seq_write_fits(self@.skip(i as int), cur@) && (forall|e: Error|
                    seq_write_err(self@.skip(i as int), cur@, e) ==> seq_write_err(
                        self@,
                        start,
                        e,
                    ))),
            decreases n - i,
        {
            let next = match self[i].write(cur) {
                Ok(b) => b,
                Err(e) => {
                    proof {
                        if buffer@.order is Some && self.write_fits(buffer@) && buffer@.writable {
                            assert(self@.skip(i as int)[0] == self@[i as int]);
                            assert(seq_spec_write(self@.skip(i as int), cur@) is None);
                            assert(self.spec_write(buffer@) is None);
                            assert(seq_write_err(self@.skip(i as int), cur@, e));
                            assert(self.spec_write_err(buffer@, e));
                        }
                    }
                    return Err(e);
                },
            };
            cur = next;
            i += 1;
            proof {
                assert(self@.skip(i - 1).drop_first() =~= self@.skip(i as int));
                assert(self@.skip(i - 1)[0] == self@[i - 1]);
            }
        }
        Ok(cur)
    }
}

/// What a run of `count` element reads takes, one element after the
/// other, or `None` as soon as one fails.
pub open spec fn seq_spec_read<T: Readable>(count: nat, b: BufView) -> Option<(Seq<T::V>, BufView)>
    decreases count,
{
    if count == 0 {
        Some((Seq::<T::V>::empty(), b))
    } else {
        match T::spec_read(b) {
            None => None,
            Some(t) => match seq_spec_read::<T>((count - 1) as nat, t.1) {
                None => None,
                Some(rest) => Some((seq![t.0] + rest.0, rest.1)),
            },
        }
    }
}

impl<T: Readable> Readable for Vec<T> {
    open spec fn spec_read(b: BufView) -> Option<(Seq<T::V>, BufView)> {
        match varint_dec(tail_of(b)) {
            None => None,
            Some(t) => if t.0 < 0 {
                None
            } else {
                seq_spec_read::<T>(t.0 as nat, b.advanced(t.1 as nat))
            },
        }
    }

    #[verifier::loop_isolation(false)]
    fn read(buffer: &mut Buffer) -> (r: Result<Vec<T>, Error>)
        ensures
            (match varint_dec(tail_of(old(buffer)@)) {
                Some(t) => r matches Ok(v) ==> v@.len() == t.0,
                None => r is Err,
            }),
    {
        let n = match VarI32::read(buffer) {
            Ok(v) => v.value,
            Err(e) => {
                return Err(e);
            },
        };
        if n < 0 {
            return Err(Error::Other("sequence with a negative element count".to_owned()));
        }
        let count = n as usize;
        let ghost mid = buffer@;
        let mut out: Vec<T> = Vec::new();
        let mut i: usize = 0;
        proof {
            if old(buffer)@.order is Some {
                match seq_spec_read::<T>(count as nat, mid) {
                    Some(rest) => {
                        assert(out.deep_view() =~= Seq::<T::V>::empty());
                        assert(out.deep_view() + rest.0 =~= rest.0);
                    },
                    None => {},
                }
            }
        }
        while i < count
            invariant
                i <= count,
                out@.len() == i,
                buffer@.data == old(buffer)@.data,
                buffer@.writable == old(buffer)@.writable,
                buffer@.order == old(buffer)@.order,
                buffer@.position >= old(buffer)@.position,
                old(buffer)@.order is Some ==> (match seq_spec_read::<T>(
                    (count - i) as nat,
                    buffer@,
                ) {
                    None => Self::spec_read(old(buffer)@) is None,
                    Some(rest) => Self::spec_read(old(buffer)@) == Some(
                        (out.deep_view() + rest.0, rest.1),
                    ),
                }),
            decreases count - i,
        {
            let ghost cur_pre = buffer@;
            let ghost out_pre = out@;
            let v = match T::read(buffer) {
                Ok(v) => v,
                Err(e) => {
                    return Err(e);
                },
            };
            out.push(v);
            i += 1;
            proof {
                if old(buffer)@.order is Some {
                    assert(out.deep_view() =~= Seq::new(
                        out_pre.len(),
                        |j: int| out_pre[j].deep_view(),
                    ) + seq![v.deep_view()]);
                    match T::spec_read(cur_pre) {
                        Some(t0) => {
                            match seq_spec_read::<T>((count - i) as nat, buffer@) {
                                Some(rest) => {
                                    assert((Seq::new(
                                        out_pre.len(),
                                        |j: int| out_pre[j].deep_view(),
                                    ) + seq![v.deep_view()]) + rest.0 =~= Seq::new(
                                        out_pre.len(),
                                        |j: int| out_pre[j].deep_view(),
                                    ) + (seq![t0.0] + rest.0));
                                },
                                None => {},
                            }
                        },
                        None => {},
                    }
                }
            }
        }
        proof {
            if old(buffer)@.order is Some {
                match seq_spec_read::<T>(0nat, buffer@) {
                    Some(rest) => {
                        assert(out.deep_view() + rest.0 =~= out.deep_view());
                    },
                    None => {},
                }
            }
        }
        Ok(out)
    }
}

/// Binds a transport object, a pipeline and protocol bookkeeping: the
/// current state and the fixed traffic direction.
pub trait Connection<S>: Sized {
    /// The protocol state the connection is in. The default leaves it
    /// unspecified, for adapters outside the verifier's reach.
    open spec fn spec_state(&self) -> PacketState {
        vstd::pervasive::arbitrary()
    }

    /// The transport's configured read deadline, in milliseconds. The
    /// default leaves it unspecified, for adapters outside the verifier's
    /// reach.
    open spec fn spec_timeout(&self) -> Option<u64> {
        vstd::pervasive::arbitrary()
    }

    /// Every byte handed to the transport so far, in the order written.
    /// The default leaves it unspecified, for adapters outside the
    /// verifier's reach.
    open spec fn spec_sent(&self) -> Seq<u8> {
        vstd::pervasive::arbitrary()
    }

    /// Wraps a transport object; a fresh connection starts in the
    /// handshaking state.
    fn new(object: S, pipeline: Pipeline) -> (r: Self)
        ensures
            r.spec_state() == PacketState::Handshaking,
    ;

    /// Serializes the packet into a fresh writable buffer, passes it
    /// through the encoder pipeline and writes the result to the
    /// transport; returns the number of bytes written. Bytes reach the
    /// transport in the order `write` calls were made, and a failed call
    /// hands the transport nothing.
    fn write<T: Writable>(&mut self, packet: T) -> (r: Result<usize, Error>)
        ensures
            final(self).spec_state() == old(self).spec_state(),
            final(self).spec_timeout() == old(self).spec_timeout(),
            r matches Ok(n) ==> (final(self).spec_sent().len() == old(self).spec_sent().len() + n
                && final(self).spec_sent().take(old(self).spec_sent().len() as int) == old(
                self,
            ).spec_sent()),
            r is Err ==> final(self).spec_sent() == old(self).spec_sent(),
    ;

    /// Performs one bounded transport read: optionally overrides the read
    /// deadline for this call alone, reads one chunk, restores the
    /// previous deadline — on success and on failure alike — and returns
    /// the bytes in a buffer tagged with the requested byte order,
    /// together with how long the read took, in milliseconds.
    fn read_buffer(&mut self, timeout: Option<u64>, order: ByteOrder) -> (r: Result<
        (Buffer, u64),
        Error,
    >)
        ensures
            final(self).spec_timeout() == old(self).spec_timeout(),
            final(self).spec_state() == old(self).spec_state(),
            final(self).spec_sent() == old(self).spec_sent(),
            r matches Ok(t) ==> (t.0@.order == Some(order) && t.0@.writable && t.0@.position == 0),
    ;

    /// The protocol state the connection is in.
    fn state(&self) -> (r: PacketState)
        ensures
            r == self.spec_state(),
    ;

    /// The fixed traffic direction this connection type is built for.
    fn bound() -> PacketDirection;
}

} // verus!

//! The data-driven packet model: a registry maps a protocol version to the
//! packets it recognizes, each packet declaring its wire id, the direction
//! and state it is legal in, and its ordered field list. A packet's wire
//! encoding is exactly a var-int packet id followed by each field's own
//! wire-value encoding, in declaration order — no padding, no trailing
//! length. Decoding an id outside the registry is an illegal-packet error
//! naming the id and the version's literal.

use vstd::prelude::*;

use vstd::utf8::encode_utf8;

use crate::network::buffer::{
    BufView, Buffer, failed_out_of_bounds, lemma_pow256_values, string_dec, string_enc, tail_of,
    varint_dec, varint_enc,
};
use crate::network::connection::{
    Readable, UuidValue, VarI32, Writable, is_not_writable_err, seq_spec_write, seq_write_err,
    seq_write_fits, seq_spec_write_frame, uint_bytes, uint_val, lemma_uint_round_trip,
    lemma_uint_val_bound,
};
use crate::network::{ByteOrder, Error, PacketDirection, PacketState};

verus! {

/// A wire type a packet field can have.
#[derive(Clone, Copy, PartialEq, Eq, Structural, Debug)]
pub enum FieldType {
    U8,
    U16,
    U32,
    U64,
    I8,
    I16,
    I32,
    I64,
    VarInt,
    Text,
    Uuid,
}

/// A concrete field value, tagged with its wire type.
pub enum FieldValue {
    U8(u8),
    U16(u16),
    U32(u32),
    U64(u64),
    I8(i8),
    I16(i16),
    I32(i32),
    I64(i64),
    VarInt(i32),
    Text(String),
    Uuid(UuidValue),
}

/// The mathematical value of a field: as [`FieldValue`], with text as its
/// character sequence.
pub enum FieldModel {
    U8(u8),
    U16(u16),
    U32(u32),
    U64(u64),
    I8(i8),
    I16(i16),
    I32(i32),
    I64(i64),
    VarInt(i32),
    Text(Seq<char>),
    Uuid(u64, u64),
}

impl FieldValue {
    /// The mathematical value this field holds.
    pub open spec fn model(&self) -> FieldModel {
        match self {
            FieldValue::U8(v) => FieldModel::U8(*v),
            FieldValue::U16(v) => FieldModel::U16(*v),
            FieldValue::U32(v) => FieldModel::U32(*v),
            FieldValue::U64(v) => FieldModel::U64(*v),
            FieldValue::I8(v) => FieldModel::I8(*v),
            FieldValue::I16(v) => FieldModel::I16(*v),
            FieldValue::I32(v) => FieldModel::I32(*v),
            FieldValue::I64(v) => FieldModel::I64(*v),
            FieldValue::VarInt(v) => FieldModel::VarInt(*v),
            FieldValue::Text(s) => FieldModel::Text(s@),
            FieldValue::Uuid(u) => FieldModel::Uuid(u.most_significant, u.least_significant),
        }
    }

    /// True when this value is of the given wire type.
    pub open spec fn has_type(&self, t: FieldType) -> bool {
        match (self, t) {
            (FieldValue::U8(_), FieldType::U8) => true,
            (FieldValue::U16(_), FieldType::U16) => true,
            (FieldValue::U32(_), FieldType::U32) => true,
            (FieldValue::U64(_), FieldType::U64) => true,
            (FieldValue::I8(_), FieldType::I8) => true,
            (FieldValue::I16(_), FieldType::I16) => true,
            (FieldValue::I32(_), FieldType::I32) => true,
            (FieldValue::I64(_), FieldType::I64) => true,
            (FieldValue::VarInt(_), FieldType::VarInt) => true,
            (FieldValue::Text(_), FieldType::Text) => true,
            (FieldValue::Uuid(_), FieldType::Uuid) => true,
            _ => false,
        }
    }
}

impl Writable for FieldValue {
    open spec fn write_fits(&self, b: BufView) -> bool {
        match self {
            FieldValue::U8(v) => v.write_fits(b),
            FieldValue::U16(v) => v.write_fits(b),
            FieldValue::U32(v) => v.write_fits(b),
            FieldValue::U64(v) => v.write_fits(b),
            FieldValue::I8(v) => v.write_fits(b),
            FieldValue::I16(v) => v.write_fits(b),
            FieldValue::I32(v) => v.write_fits(b),
            FieldValue::I64(v) => v.write_fits(b),
            FieldValue::VarInt(v) => VarI32 { value: *v }.write_fits(b),
            FieldValue::Text(s) => s.write_fits(b),
            FieldValue::Uuid(u) => u.write_fits(b),
        }
    }

    open spec fn spec_write(&self, b: BufView) -> Option<BufView> {
        match self {
            FieldValue::U8(v) => v.spec_write(b),
            FieldValue::U16(v) => v.spec_write(b),
            FieldValue::U32(v) => v.spec_write(b),
            FieldValue::U64(v) => v.spec_write(b),
            FieldValue::I8(v) => v.spec_write(b),
            FieldValue::I16(v) => v.spec_write(b),
            FieldValue::I32(v) => v.spec_write(b),
            FieldValue::I64(v) => v.spec_write(b),
            FieldValue::VarInt(v) => VarI32 { value: *v }.spec_write(b),
            FieldValue::Text(s) => s.spec_write(b),
            FieldValue::Uuid(u) => u.spec_write(b),
        }
    }

    open spec fn spec_write_err(&self, b: BufView, e: Error) -> bool {
        match self {
            FieldValue::U8(v) => v.spec_write_err(b, e),
            FieldValue::U16(v) => v.spec_write_err(b, e),
            FieldValue::U32(v) => v.spec_write_err(b, e),
            FieldValue::U64(v) => v.spec_write_err(b, e),
            FieldValue::I8(v) => v.spec_write_err(b, e),
            FieldValue::I16(v) => v.spec_write_err(b, e),
            FieldValue::I32(v) => v.spec_write_err(b, e),
            FieldValue::I64(v) => v.spec_write_err(b, e),
            FieldValue::VarInt(v) => VarI32 { value: *v }.spec_write_err(b, e),
            FieldValue::Text(s) => s.spec_write_err(b, e),
            FieldValue::Uuid(u) => u.spec_write_err(b, e),
        }
    }

    proof fn spec_write_frame(&self, b: BufView) {
        match self {
            FieldValue::U8(v) => v.spec_write_frame(b),
            FieldValue::U16(v) => v.spec_write_frame(b),
            FieldValue::U32(v) => v.spec_write_frame(b),
            FieldValue::U64(v) => v.spec_write_frame(b),
            FieldValue::I8(v) => v.spec_write_frame(b),
            FieldValue::I16(v) => v.spec_write_frame(b),
            FieldValue::I32(v) => v.spec_write_frame(b),
            FieldValue::I64(v) => v.spec_write_frame(b),
            FieldValue::VarInt(v) => (VarI32 { value: *v }).spec_write_frame(b),
            FieldValue::Text(s) => s.spec_write_frame(b),
            FieldValue::Uuid(u) => u.spec_write_frame(b),
        }
    }

    fn write(&self, buffer: Buffer) -> (r: Result<Buffer, Error>) {
        match self {
            FieldValue::U8(v) => v.write(buffer),
            FieldValue::U16(v) => v.write(buffer),
            FieldValue::U32(v) => v.write(buffer),
            FieldValue::U64(v) => v.write(buffer),
            FieldValue::I8(v) => v.write(buffer),
            FieldValue::I16(v) => v.write(buffer),
            FieldValue::I32(v) => v.write(buffer),
            FieldValue::I64(v) => v.write(buffer),
            FieldValue::VarInt(v) => VarI32 { value: *v }.write(buffer),
            FieldValue::Text(s) => s.write(buffer),
            FieldValue::Uuid(u) => u.write(buffer),
        }
    }
}

/// What one field read takes from the cursor: the field's mathematical
/// value and the buffer left behind, or `None` when the read fails. Exact
/// when the buffer carries an explicit byte order.
pub open spec fn field_dec(t: FieldType, b: BufView) -> Option<(FieldModel, BufView)> {
    match t {
        FieldType::U8 => if b.can_read(1) {
            Some((FieldModel::U8(b.data[b.position as int]), b.advanced(1)))
        } else {
            None
        },
        FieldType::U16 => if b.can_read(2) {
            Some((FieldModel::U16(uint_val(b.order, b.at_cursor(2)) as u16), b.advanced(2)))
        } else {
            None
        },
        FieldType::U32 => if b.can_read(4) {
            Some((FieldModel::U32(uint_val(b.order, b.at_cursor(4)) as u32), b.advanced(4)))
        } else {
            None
        },
        FieldType::U64 => if b.can_read(8) {
            Some((FieldModel::U64(uint_val(b.order, b.at_cursor(8)) as u64), b.advanced(8)))
        } else {
            None
        },
        FieldType::I8 => if b.can_read(1) {
            Some((FieldModel::I8(b.data[b.position as int] as i8), b.advanced(1)))
        } else {
            None
        },
        FieldType::I16 => if b.can_read(2) {
            Some(
                (
                    FieldModel::I16((uint_val(b.order, b.at_cursor(2)) as u16) as i16),
                    b.advanced(2),
                ),
            )
        } else {
            None
        },
        FieldType::I32 => if b.can_read(4) {
            Some(
                (
                    FieldModel::I32((uint_val(b.order, b.at_cursor(4)) as u32) as i32),
                    b.advanced(4),
                ),
            )
        } else {
            None
        },
        FieldType::I64 => if b.can_read(8) {
            Some(
                (
                    FieldModel::I64((uint_val(b.order, b.at_cursor(8)) as u64) as i64),
                    b.advanced(8),
                ),
            )
        } else {
            None
        },
        FieldType::VarInt => match varint_dec(tail_of(b)) {
            Some(t) => Some((FieldModel::VarInt(t.0 as i32), b.advanced(t.1 as nat))),
            None => None,
        },
        FieldType::Text => match string_dec(tail_of(b)) {
            Some(t) => Some((FieldModel::Text(t.0), b.advanced(t.1 as nat))),
            None => None,
        },
        FieldType::Uuid => if b.can_read(16) {
            Some(
                (
                    FieldModel::Uuid(
                        uint_val(b.order, b.at_cursor(8)) as u64,
                        uint_val(b.advanced(8).order, b.advanced(8).at_cursor(8)) as u64,
                    ),
                    b.advanced(16),
                ),
            )
        } else {
            None
        },
    }
}

/// What a run of field reads takes, one field type after the other, or
/// `None` as soon as one fails.
pub open spec fn fields_dec(ts: Seq<FieldType>, b: BufView) -> Option<(Seq<FieldModel>, BufView)>
    decreases ts.len(),
{
    if ts.len() == 0 {
        Some((Seq::empty(), b))
    } else {
        match field_dec(ts[0], b) {
            None => None,
            Some(t) => match fields_dec(ts.drop_first(), t.1) {
                None => None,
                Some(rest) => Some((seq![t.0] + rest.0, rest.1)),
            },
        }
    }
}

/// The bytes one field write appends: each wire type's own encoding,
/// under the given byte order.
pub open spec fn field_enc(fv: FieldValue, order: Option<ByteOrder>) -> Seq<u8> {
    match fv {
        FieldValue::U8(v) => seq![v],
        FieldValue::U16(v) => uint_bytes(order, v as nat, 2),
        FieldValue::U32(v) => uint_bytes(order, v as nat, 4),
        FieldValue::U64(v) => uint_bytes(order, v as nat, 8),
        FieldValue::I8(v) => uint_bytes(order, (v as u8) as nat, 1),
        FieldValue::I16(v) => uint_bytes(order, (v as u16) as nat, 2),
        FieldValue::I32(v) => uint_bytes(order, (v as u32) as nat, 4),
        FieldValue::I64(v) => uint_bytes(order, (v as u64) as nat, 8),
        FieldValue::VarInt(v) => varint_enc((v as u32) as nat),
        FieldValue::Text(s) => string_enc(s@),
        FieldValue::Uuid(u) => uint_bytes(order, u.most_significant as nat, 8) + uint_bytes(
            order,
            u.least_significant as nat,
            8,
        ),
    }
}

/// The bytes a run of field writes appends, in order.
pub open spec fn fields_enc(fs: Seq<FieldValue>, order: Option<ByteOrder>) -> Seq<u8>
    decreases fs.len(),
{
    if fs.len() == 0 {
        Seq::empty()
    } else {
        field_enc(fs[0], order) + fields_enc(fs.drop_first(), order)
    }
}

/// The field values whose wire form the reader takes back whole: var-int
/// fields below 2^28 — the four groups a read takes — and strings whose
/// byte length stays below 2^28 so their length prefix round-trips.
pub open spec fn field_round_trips(fv: FieldValue) -> bool {
    match fv {
        FieldValue::VarInt(v) => 0 <= v < 0x10000000,
        FieldValue::Text(s) => encode_utf8(s@).len() < 0x10000000,
        _ => true,
    }
}

/// A successful field write appends exactly the field's encoding.
pub proof fn lemma_field_write_bytes(fv: FieldValue, b: BufView)
    ensures
        fv.spec_write(b) matches Some(post) ==> post == b.wrote(field_enc(fv, b.order)),
{
}

/// A successful run of field writes appends exactly the fields'
/// encodings, in order.
pub proof fn lemma_fields_write_bytes(fs: Seq<FieldValue>, b: BufView)
    ensures
        seq_spec_write(fs, b) matches Some(post) ==> post == b.wrote(fields_enc(fs, b.order)),
    decreases fs.len(),
{
    if fs.len() > 0 {
        lemma_field_write_bytes(fs[0], b);
        match fs[0].spec_write(b) {
            Some(mid) => {
                lemma_fields_write_bytes(fs.drop_first(), mid);
                match seq_spec_write(fs.drop_first(), mid) {
                    Some(post) => {
                        assert(b.wrote(field_enc(fs[0], b.order)).wrote(
                            fields_enc(fs.drop_first(), b.order),
                        ) =~= b.wrote(fields_enc(fs, b.order)));
                    },
                    None => {},
                }
            },
            None => {},
        }
    } else {
        assert(b.wrote(fields_enc(fs, b.order)) =~= b);
    }
}

/// Field symmetry: a field read at a spot where a field write laid its
/// bytes — whatever bytes follow them — takes back exactly the value
/// written and consumes exactly its encoding.
pub proof fn lemma_field_round_trip(fv: FieldValue, t: FieldType, r: BufView, rest: Seq<u8>)
    requires
        fv.has_type(t),
        field_round_trips(fv),
        r.order is Some,
        r.position <= r.data.len(),
        tail_of(r) == field_enc(fv, r.order) + rest,
    ensures
        field_dec(t, r) == Some((fv.model(), r.advanced(field_enc(fv, r.order).len()))),
{
    lemma_pow256_values();
    let enc = field_enc(fv, r.order);
    let tail = tail_of(r);
    assert(tail.len() == r.data.len() - r.position);
    match fv {
        FieldValue::U8(v) => {
            lemma_uint_bytes_len(r.order, v as nat, 1);
            assert(r.data[r.position as int] == tail[0]);
            assert(tail[0] == enc[0]);
            assert(enc[0] == v) by {
                lemma_uint_bytes_single(r.order, v as nat);
            }
        },
        FieldValue::U16(v) => {
            lemma_fixed_field_round_trip(r, v as nat, 2, rest);
            lemma_uint_bytes_len(r.order, v as nat, 2);
        },
        FieldValue::U32(v) => {
            lemma_fixed_field_round_trip(r, v as nat, 4, rest);
            lemma_uint_bytes_len(r.order, v as nat, 4);
        },
        FieldValue::U64(v) => {
            lemma_fixed_field_round_trip(r, v as nat, 8, rest);
            lemma_uint_bytes_len(r.order, v as nat, 8);
        },
        FieldValue::I8(v) => {
            lemma_uint_bytes_len(r.order, (v as u8) as nat, 1);
            assert(r.data[r.position as int] == tail[0]);
            assert(tail[0] == enc[0]);
            assert(enc[0] == v as u8) by {
                lemma_uint_bytes_single(r.order, (v as u8) as nat);
            }
            assert((v as u8) as i8 == v) by (bit_vector);
        },
        FieldValue::I16(v) => {
            lemma_fixed_field_round_trip(r, (v as u16) as nat, 2, rest);
            lemma_uint_bytes_len(r.order, (v as u16) as nat, 2);
            assert(((v as u16) as u16) as i16 == v) by (bit_vector);
        },
        FieldValue::I32(v) => {
            lemma_fixed_field_round_trip(r, (v as u32) as nat, 4, rest);
            lemma_uint_bytes_len(r.order, (v as u32) as nat, 4);
            assert(((v as u32) as u32) as i32 == v) by (bit_vector);
        },
        FieldValue::I64(v) => {
            lemma_fixed_field_round_trip(r, (v as u64) as nat, 8, rest);
            lemma_uint_bytes_len(r.order, (v as u64) as nat, 8);
            assert(((v as u64) as u64) as i64 == v) by (bit_vector);
        },
        FieldValue::VarInt(v) => {
            crate::network::buffer::lemma_varint_round_trip_i32(v, rest);
        },
        FieldValue::Text(s) => {
            crate::network::buffer::lemma_string_round_trip(s@, rest);
        },
        FieldValue::Uuid(u) => {
            let c1 = uint_bytes(r.order, u.most_significant as nat, 8);
            let c2 = uint_bytes(r.order, u.least_significant as nat, 8);
            lemma_uint_bytes_len(r.order, u.most_significant as nat, 8);
            lemma_uint_bytes_len(r.order, u.least_significant as nat, 8);
            assert(r.can_read(16));
            assert forall|j: int| 0 <= j < 8 implies r.at_cursor(8)[j] == c1[j] by {
                assert(r.at_cursor(8)[j] == r.data[r.position + j]);
                assert(r.data[r.position + j] == tail[j]);
                assert(tail[j] == c1[j]);
            }
            assert(r.at_cursor(8) =~= c1);
            assert forall|j: int| 0 <= j < 8 implies r.advanced(8).at_cursor(8)[j] == c2[j] by {
                assert(r.advanced(8).at_cursor(8)[j] == r.data[r.position + 8 + j]);
                assert(r.data[r.position + 8 + j] == tail[8 + j]);
                assert(tail[8 + j] == enc[8 + j]);
                assert(enc[8 + j] == c2[j]);
            }
            assert(r.advanced(8).at_cursor(8) =~= c2);
            lemma_uint_round_trip(r.order, u.most_significant as nat, 8);
            lemma_uint_round_trip(r.order, u.least_significant as nat, 8);
        },
    }
}

/// An integer encoding holds exactly `n` bytes, whichever way round it
/// is laid down.
proof fn lemma_uint_bytes_len(order: Option<ByteOrder>, v: nat, n: nat)
    ensures
        uint_bytes(order, v, n).len() == n,
{
    crate::network::buffer::lemma_le_bytes_len(v, n);
}

/// A one-byte integer encoding is the value itself, whichever way round.
proof fn lemma_uint_bytes_single(order: Option<ByteOrder>, v: nat)
    requires
        v < 256,
    ensures
        uint_bytes(order, v, 1) =~= seq![v as u8],
{
    crate::network::buffer::lemma_le_bytes_len(v, 1);
    assert(crate::network::buffer::le_bytes(v, 1) =~= seq![v as u8]);
    assert(crate::network::buffer::le_bytes(v, 1).reverse() =~= seq![v as u8]);
}

/// The shared step for the fixed-width cases of the field round trip:
/// the bytes at the cursor are the encoding, and they combine back to
/// the value.
proof fn lemma_fixed_field_round_trip(r: BufView, v: nat, n: nat, rest: Seq<u8>)
    requires
        r.order is Some,
        r.position <= r.data.len(),
        v < crate::network::buffer::pow256(n),
        tail_of(r) == uint_bytes(r.order, v, n) + rest,
    ensures
        r.can_read(n),
        uint_val(r.order, r.at_cursor(n)) == v,
{
    lemma_uint_bytes_len(r.order, v, n);
    assert(tail_of(r).len() == r.data.len() - r.position);
    assert(r.at_cursor(n) =~= uint_bytes(r.order, v, n));
    lemma_uint_round_trip(r.order, v, n);
}

/// Sequence symmetry: a run of field reads at a spot where a run of
/// field writes laid its bytes — whatever follows them — takes back
/// exactly the values written, in order.
#[verifier::rlimit(50)]
pub proof fn lemma_fields_round_trip(
    fs: Seq<FieldValue>,
    ts: Seq<FieldType>,
    r: BufView,
    rest: Seq<u8>,
)
    requires
        fs.len() == ts.len(),
        forall|i: int| 0 <= i < fs.len() ==> fs[i].has_type(ts[i]) && field_round_trips(fs[i]),
        r.order is Some,
        r.position <= r.data.len(),
        tail_of(r) == fields_enc(fs, r.order) + rest,
    ensures
        fields_dec(ts, r) == Some(
            (
                fs.map_values(|f: FieldValue| f.model()),
                r.advanced(fields_enc(fs, r.order).len()),
            ),
        ),
    decreases fs.len(),
{
    if fs.len() == 0 {
        assert(fs.map_values(|f: FieldValue| f.model()) =~= Seq::<FieldModel>::empty());
        assert(r.advanced(0) =~= r);
    } else {
        let enc0 = field_enc(fs[0], r.order);
        let rest0 = fields_enc(fs.drop_first(), r.order) + rest;
        assert(tail_of(r) =~= enc0 + rest0);
        lemma_field_round_trip(fs[0], ts[0], r, rest0);
        let mid = r.advanced(enc0.len());
        assert(tail_of(r).len() == r.data.len() - r.position);
        assert(mid.position <= mid.data.len());
        assert(tail_of(mid) =~= tail_of(r).skip(enc0.len() as int));
        assert(tail_of(r).skip(enc0.len() as int) =~= rest0);
        assert(tail_of(mid) == fields_enc(fs.drop_first(), r.order) + rest);
        assert forall|i: int|
            0 <= i < fs.drop_first().len() implies fs.drop_first()[i].has_type(ts.drop_first()[i])
            && field_round_trips(fs.drop_first()[i]) by {
            assert(fs.drop_first()[i] == fs[i + 1]);
            assert(ts.drop_first()[i] == ts[i + 1]);
        }
        lemma_fields_round_trip(fs.drop_first(), ts.drop_first(), mid, rest);
        assert(mid.advanced(fields_enc(fs.drop_first(), r.order).len()) =~= r.advanced(
            fields_enc(fs, r.order).len(),
        ));
        assert(seq![fs[0].model()] + fs.drop_first().map_values(|f: FieldValue| f.model())
            =~= fs.map_values(|f: FieldValue| f.model()));
    }
}

/// Packet symmetry: where a packet write laid its bytes — a var-int
/// packet id, then the declared fields in order — a decode against a
/// registry that declares a packet of matching shape for this id, state
/// and direction takes back the same id and the same field values, and
/// consumes exactly the packet's bytes.
pub proof fn lemma_packet_round_trip(
    packets: Seq<PacketDescriptor>,
    p: PacketData,
    r: BufView,
    rest: Seq<u8>,
    state: PacketState,
    direction: PacketDirection,
)
    requires
        r.order is Some,
        r.position <= r.data.len(),
        0 <= p.id < 0x10000000,
        tail_of(r) == varint_enc((p.id as u32) as nat) + (fields_enc(p.fields@, r.order) + rest),
        (match find_packet_at(packets, p.id as int, state, direction) {
            Some(j) => packets[j].field_types().len() == p.fields@.len() && (forall|i: int|
                0 <= i < p.fields@.len() ==> p.fields@[i].has_type(packets[j].field_types()[i])
                    && field_round_trips(p.fields@[i])),
            None => false,
        }),
    ensures
        varint_dec(tail_of(r)) == Some(
            (p.id as int, varint_enc((p.id as u32) as nat).len() as int),
        ),
        (match find_packet_at(packets, p.id as int, state, direction) {
            Some(j) => fields_dec(
                packets[j].field_types(),
                r.advanced(varint_enc((p.id as u32) as nat).len()),
            ) == Some(
                (
                    p.field_models(),
                    r.advanced(
                        (varint_enc((p.id as u32) as nat).len() + fields_enc(
                            p.fields@,
                            r.order,
                        ).len()) as nat,
                    ),
                ),
            ),
            None => true,
        }),
{
    let enc_id = varint_enc((p.id as u32) as nat);
    let body = fields_enc(p.fields@, r.order);
    crate::network::buffer::lemma_varint_round_trip_i32(p.id, body + rest);
    assert(tail_of(r).len() == r.data.len() - r.position);
    let mid = r.advanced(enc_id.len());
    assert(mid.position <= mid.data.len());
    assert(tail_of(mid) =~= tail_of(r).skip(enc_id.len() as int));
    assert(tail_of(r).skip(enc_id.len() as int) =~= body + rest);
    match find_packet_at(packets, p.id as int, state, direction) {
        Some(j) => {
            lemma_fields_round_trip(p.fields@, packets[j].field_types(), mid, rest);
            assert(mid.advanced(body.len()) =~= r.advanced((enc_id.len() + body.len()) as nat));
        },
        None => {},
    }
}

/// Reads one field of the given wire type at the cursor.
pub fn read_field(buffer: &mut Buffer, t: FieldType) -> (r: Result<FieldValue, Error>)
    ensures
        old(buffer)@.order is Some ==> (match field_dec(t, old(buffer)@) {
            Some(d) => r matches Ok(v) && v.model() == d.0 && v.has_type(t) && final(buffer)@
                == d.1,
            None => r is Err,
        }),
        final(buffer)@.data == old(buffer)@.data,
        final(buffer)@.writable == old(buffer)@.writable,
        final(buffer)@.order == old(buffer)@.order,
        final(buffer)@.position >= old(buffer)@.position,
{
    proof {
        lemma_pow256_values();
        lemma_uint_val_bound(old(buffer)@.order, old(buffer)@.at_cursor(1));
        lemma_uint_val_bound(old(buffer)@.order, old(buffer)@.at_cursor(2));
        lemma_uint_val_bound(old(buffer)@.order, old(buffer)@.at_cursor(4));
        lemma_uint_val_bound(old(buffer)@.order, old(buffer)@.at_cursor(8));
        lemma_uint_val_bound(old(buffer)@.order, old(buffer)@.advanced(8).at_cursor(8));
        if old(buffer)@.can_read(1) {
            assert(old(buffer)@.at_cursor(1) =~= seq![
                old(buffer)@.data[old(buffer)@.position as int],
            ]);
            assert(old(buffer)@.at_cursor(1).drop_first() =~= Seq::<u8>::empty());
            assert(old(buffer)@.at_cursor(1).reverse() =~= old(buffer)@.at_cursor(1));
        }
    }
    match t {
        FieldType::U8 => match u8::read(buffer) {
            Ok(v) => Ok(FieldValue::U8(v)),
            Err(e) => Err(e),
        },
        FieldType::U16 => match u16::read(buffer) {
            Ok(v) => Ok(FieldValue::U16(v)),
            Err(e) => Err(e),
        },
        FieldType::U32 => match u32::read(buffer) {
            Ok(v) => Ok(FieldValue::U32(v)),
            Err(e) => Err(e),
        },
        FieldType::U64 => match u64::read(buffer) {
            Ok(v) => Ok(FieldValue::U64(v)),
            Err(e) => Err(e),
        },
        FieldType::I8 => match i8::read(buffer) {
            Ok(v) => {
                proof {
                    assert((v as u8) as i8 == v) by (bit_vector);
                }
                Ok(FieldValue::I8(v))
            },
            Err(e) => Err(e),
        },
        FieldType::I16 => match i16::read(buffer) {
            Ok(v) => {
                proof {
                    assert((v as u16) as i16 == v) by (bit_vector);
                }
                Ok(FieldValue::I16(v))
            },
            Err(e) => Err(e),
        },
        FieldType::I32 => match i32::read(buffer) {
            Ok(v) => {
                proof {
                    assert((v as u32) as i32 == v) by (bit_vector);
                }
                Ok(FieldValue::I32(v))
            },
            Err(e) => Err(e),
        },
        FieldType::I64 => match i64::read(buffer) {
            Ok(v) => {
                proof {
                    assert((v as u64) as i64 == v) by (bit_vector);
                }
                Ok(FieldValue::I64(v))
            },
            Err(e) => Err(e),
        },
        FieldType::VarInt => match VarI32::read(buffer) {
            Ok(v) => Ok(FieldValue::VarInt(v.value)),
            Err(e) => Err(e),
        },
        FieldType::Text => match String::read(buffer) {
            Ok(v) => Ok(FieldValue::Text(v)),
            Err(e) => Err(e),
        },
        FieldType::Uuid => match UuidValue::read(buffer) {
            Ok(v) => Ok(FieldValue::Uuid(v)),
            Err(e) => Err(e),
        },
    }
}

/// A packet declaration: its wire id, the direction and state it is legal
/// in, and its named, ordered field list.
pub struct PacketDescriptor {
    pub id: i32,
    pub direction: PacketDirection,
    pub state: PacketState,
    pub fields: Vec<(String, FieldType)>,
}

impl PacketDescriptor {
    /// The field types, in declaration order.
    pub open spec fn field_types(&self) -> Seq<FieldType> {
        self.fields@.map_values(|f: (String, FieldType)| f.1)
    }
}

/// A concrete packet: its wire id and its field values, in declaration
/// order.
pub struct PacketData {
    pub id: i32,
    pub fields: Vec<FieldValue>,
}

impl PacketData {
    /// The mathematical values of the fields, in order.
    pub open spec fn field_models(&self) -> Seq<FieldModel> {
        self.fields@.map_values(|f: FieldValue| f.model())
    }
}

impl Writable for PacketData {
    open spec fn write_fits(&self, b: BufView) -> bool {
        &&& b.position + 5 <= usize::MAX
        &&& (b.writable ==> seq_write_fits(
            self.fields@,
            b.wrote(varint_enc((self.id as u32) as nat)),
        ))
    }

    open spec fn spec_write(&self, b: BufView) -> Option<BufView> {
        if !b.writable {
            None
        } else {
            seq_spec_write(self.fields@, b.wrote(varint_enc((self.id as u32) as nat)))
        }
    }

    open spec fn spec_write_err(&self, b: BufView, e: Error) -> bool {
        if !b.writable {
            is_not_writable_err(e)
        } else {
            seq_write_err(self.fields@, b.wrote(varint_enc((self.id as u32) as nat)), e)
        }
    }

    proof fn spec_write_frame(&self, b: BufView) {
        if b.writable {
            seq_spec_write_frame(self.fields@, b.wrote(varint_enc((self.id as u32) as nat)));
        }
    }

    #[verifier::loop_isolation(false)]
    fn write(&self, buffer: Buffer) -> (r: Result<Buffer, Error>) {
        let mut cur = buffer;
        match cur.write_var_i32(self.id) {
            Ok(()) => {},
            Err(e) => {
                return Err(e);
            },
        }
        let ghost start = cur@;
        let n = self.fields.len();
        let mut i: usize = 0;
        proof {
            assert(self.fields@.skip(0) =~= self.fields@);
        }
        while i < n
            invariant
                i <= n,
                n == self.fields@.len(),
                cur@.writable == buffer@.writable,
                cur@.order == buffer@.order,
                buffer@.order is Some && self.write_fits(buffer@) && buffer@.writable ==> (
                seq_spec_write(self.fields@.skip(i as int), cur@) == seq_spec_write(
                    self.fields@,
                    start,
                ) && seq_write_fits(self.fields@.skip(i as int), cur@) && (forall|e: Error|
                    seq_write_err(self.fields@.skip(i as int), cur@, e) ==> seq_write_err(
                        self.fields@,
                        start,
                        e,
                    ))),
            decreases n - i,
        {
            let next = match self.fields[i].write(cur) {
                Ok(b) => b,
                Err(e) => {
                    proof {
                        if buffer@.order is Some && self.write_fits(buffer@) && buffer@.writable {
                            assert(self.fields@.skip(i as int)[0] == self.fields@[i as int]);
                            assert(seq_spec_write(self.fields@.skip(i as int), cur@) is None);
                            assert(self.spec_write(buffer@) is None);
                            assert(seq_write_err(self.fields@.skip(i as int), cur@, e));
                            assert(self.spec_write_err(buffer@, e));
                        }
                    }
                    return Err(e);
                },
            };
            cur = next;
            i += 1;
            proof {
                assert(self.fields@.skip(i - 1).drop_first() =~= self.fields@.skip(i as int));
                assert(self.fields@.skip(i - 1)[0] == self.fields@[i - 1]);
            }
        }
        Ok(cur)
    }
}

/// The first declared packet that matches an id, a state and a direction.
pub open spec fn find_packet_at(
    packets: Seq<PacketDescriptor>,
    id: int,
    state: PacketState,
    direction: PacketDirection,
) -> Option<int>
    decreases packets.len(),
{
    if packets.len() == 0 {
        None
    } else if packets[0].id == id && packets[0].state == state && packets[0].direction
        == direction {
        Some(0)
    } else {
        match find_packet_at(packets.drop_first(), id, state, direction) {
            Some(j) => Some(j + 1),
            None => None,
        }
    }
}

/// What a found packet index means: it lies in range, its descriptor
/// matches the id, state and direction asked for, and when no index comes
/// back no declared packet matches.
pub proof fn lemma_find_packet_bounds(
    packets: Seq<PacketDescriptor>,
    id: int,
    state: PacketState,
    direction: PacketDirection,
)
    ensures
        (match find_packet_at(packets, id, state, direction) {
            Some(j) => 0 <= j < packets.len() && packets[j].id == id && packets[j].state == state
                && packets[j].direction == direction,
            None => forall|j: int|
                0 <= j < packets.len() ==> !(packets[j].id == id && packets[j].state == state
                    && packets[j].direction == direction),
        }),
    decreases packets.len(),
{
    if packets.len() > 0 {
        lemma_find_packet_bounds(packets.drop_first(), id, state, direction);
        assert forall|j: int| 1 <= j < packets.len() implies packets.drop_first()[j - 1]
            == packets[j] by {}
    }
}

/// A protocol revision as data: its numeric id, its literal name and the
/// packets it recognizes.
pub struct ProtocolInfo {
    pub id: i32,
    pub literal: String,
    pub packets: Vec<PacketDescriptor>,
}

impl ProtocolInfo {
    /// The wire ids of every declared packet, in declaration order.
    pub fn packet_ids(&self) -> (r: Vec<i32>)
        ensures
            r@ == self.packets@.map_values(|p: PacketDescriptor| p.id),
    {
        let n = self.packets.len();
        let mut out: Vec<i32> = Vec::new();
        let mut i: usize = 0;
        while i < n
            invariant
                i <= n,
                n == self.packets@.len(),
                out@ == self.packets@.map_values(|p: PacketDescriptor| p.id).take(i as int),
            decreases n - i,
        {
            out.push(self.packets[i].id);
            i += 1;
            proof {
                assert(self.packets@.map_values(|p: PacketDescriptor| p.id).take(i - 1) + seq![
                    self.packets@[i - 1].id,
                ] =~= self.packets@.map_values(|p: PacketDescriptor| p.id).take(i as int));
            }
        }
        proof {
            assert(self.packets@.map_values(|p: PacketDescriptor| p.id).take(n as int)
                =~= self.packets@.map_values(|p: PacketDescriptor| p.id));
        }
        out
    }

    /// The first declared packet matching the id, state and direction.
    fn find_packet(&self, id: i32, state: PacketState, direction: PacketDirection) -> (r: Option<
        usize,
    >)
        ensures
            (match find_packet_at(self.packets@, id as int, state, direction) {
                Some(j) => r matches Some(u) && u == j && j < self.packets@.len(),
                None => r is None,
            }),
    {
        proof {
            lemma_find_packet_bounds(self.packets@, id as int, state, direction);
            assert(self.packets@.skip(0) =~= self.packets@);
        }
        let n = self.packets.len();
        let mut i: usize = 0;
        while i < n
            invariant
                i <= n,
                n == self.packets@.len(),
                (match find_packet_at(self.packets@.skip(i as int), id as int, state, direction) {
                    Some(j) => find_packet_at(self.packets@, id as int, state, direction) == Some(
                        j + i,
                    ),
                    None => find_packet_at(self.packets@, id as int, state, direction) is None,
                }),
            decreases n - i,
        {
            let p = &self.packets[i];
            if p.id == id && p.state == state && p.direction == direction {
                proof {
                    assert(self.packets@.skip(i as int)[0] == self.packets@[i as int]);
                }
                return Some(i);
            }
            i += 1;
            proof {
                assert(self.packets@.skip(i - 1).drop_first() =~= self.packets@.skip(i as int));
                assert(self.packets@.skip(i - 1)[0] == self.packets@[i - 1]);
            }
        }
        proof {
            assert(self.packets@.skip(n as int) =~= Seq::<PacketDescriptor>::empty());
        }
        None
    }

    /// Decodes one packet at the cursor against this protocol version: a
    /// var-int packet id, then the declared fields of the first packet
    /// legal for this id, state and direction. An id with no declared
    /// packet is an illegal-packet error naming the id and this version's
    /// literal.
    #[verifier::loop_isolation(false)]
    pub fn decode_packet(
        &self,
        buffer: &mut Buffer,
        state: PacketState,
        direction: PacketDirection,
    ) -> (r: Result<PacketData, Error>)
        ensures
            old(buffer)@.order is Some ==> (match varint_dec(tail_of(old(buffer)@)) {
                None => failed_out_of_bounds(old(buffer)@, final(buffer)@, r),
                Some(tid) => (match find_packet_at(self.packets@, tid.0, state, direction) {
                    None => r matches Err(Error::IllegalPacket(x, lit)) && x == tid.0 && lit@
                        == self.literal@ && final(buffer)@ == old(buffer)@.advanced(tid.1 as nat),
                    Some(j) => (match fields_dec(
                        self.packets@[j].field_types(),
                        old(buffer)@.advanced(tid.1 as nat),
                    ) {
                        None => r is Err,
                        Some(d) => r matches Ok(p) && p.id == tid.0 && p.field_models() == d.0
                            && final(buffer)@ == d.1,
                    }),
                }),
            }),
    {
        let id = match VarI32::read(buffer) {
            Ok(v) => v.value,
            Err(e) => {
                return Err(e);
            },
        };
        proof {
            lemma_find_packet_bounds(self.packets@, id as int, state, direction);
        }
        let j = match self.find_packet(id, state, direction) {
            Some(j) => j,
            None => {
                return Err(Error::IllegalPacket(id, self.literal.clone()));
            },
        };
        let descriptor = &self.packets[j];
        let ghost start = buffer@;
        let n = descriptor.fields.len();
        let mut fields: Vec<FieldValue> = Vec::new();
        let mut i: usize = 0;
        proof {
            assert(descriptor.field_types().skip(0) =~= descriptor.field_types());
        }
        while i < n
            invariant
                i <= n,
                n == descriptor.fields@.len(),
                fields@.len() == i,
                buffer@.data == old(buffer)@.data,
                buffer@.writable == old(buffer)@.writable,
                buffer@.order == old(buffer)@.order,
                buffer@.position >= old(buffer)@.position,
                old(buffer)@.order is Some ==> (match fields_dec(
                    descriptor.field_types().skip(i as int),
                    buffer@,
                ) {
                    None => fields_dec(descriptor.field_types(), start) is None,
                    Some(rest) => fields_dec(descriptor.field_types(), start) == Some(
                        (fields@.map_values(|f: FieldValue| f.model()) + rest.0, rest.1),
                    ),
                }),
            decreases n - i,
        {
            let ghost pre = buffer@;
            let v = match read_field(buffer, descriptor.fields[i].1) {
                Ok(v) => v,
                Err(e) => {
                    proof {
                        if old(buffer)@.order is Some {
                            assert(descriptor.field_types().skip(i as int)[0]
                                == descriptor.field_types()[i as int]);
                        }
                    }
                    return Err(e);
                },
            };
            fields.push(v);
            i += 1;
            proof {
                assert(descriptor.field_types().skip(i - 1).drop_first()
                    =~= descriptor.field_types().skip(i as int));
                assert(descriptor.field_types().skip(i - 1)[0] == descriptor.field_types()[i - 1]);
                if old(buffer)@.order is Some {
                    match fields_dec(descriptor.field_types().skip(i as int), buffer@) {
                        Some(rest) => {
                            assert(fields@.map_values(|f: FieldValue| f.model()) =~= fields@.take(
                                i - 1,
                            ).map_values(|f: FieldValue| f.model()) + seq![fields@[i - 1].model()]);
                        },
                        None => {},
                    }
                }
            }
        }
        proof {
            assert(descriptor.field_types().skip(n as int) =~= Seq::<FieldType>::empty());
        }
        Ok(PacketData { id, fields })
    }
}

} // verus!

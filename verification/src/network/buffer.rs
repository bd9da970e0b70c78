//! The cursor-addressed byte container every wire value passes through.
//!
//! A [`Buffer`] owns a byte sequence, a cursor, a writable flag and an
//! optional explicit byte order. Writes append bytes at the end of the data
//! and move the cursor forward by the number of bytes written; reads take
//! bytes at the cursor and move it forward by the number of bytes read.
//! Reading past the end of the data and writing to a non-writable buffer
//! are errors, never panics.

use vstd::prelude::*;
use vstd::arithmetic::power2::{pow2, lemma_pow2_adds, lemma2_to64};
use vstd::utf8::{valid_utf8, decode_utf8, encode_utf8};

use crate::network::{ByteOrder, Error};

verus! {

/// 128 to the `n`: the number of values `n` var-int groups can hold.
pub open spec fn pow128(n: nat) -> nat
    decreases n,
{
    if n == 0 {
        1
    } else {
        128 * pow128((n - 1) as nat)
    }
}

pub proof fn lemma_pow128_4()
    ensures
        pow128(4) == 0x10000000,
{
    reveal_with_fuel(pow128, 5);
}

pub proof fn lemma_pow128_pos(n: nat)
    ensures
        pow128(n) >= 1,
    decreases n,
{
    if n > 0 {
        lemma_pow128_pos((n - 1) as nat);
    }
}

/// What a var-int decode can return: a non-negative value below 128 to the
/// group budget, and a byte count within both the budget and the data.
pub proof fn lemma_varint_dec_bounds(bytes: Seq<u8>, budget: nat)
    ensures
        varint_dec_g(bytes, budget) matches Some(t) ==> (0 <= t.0 < pow128(budget) && 0 <= t.1
            <= budget && t.1 <= bytes.len()),
    decreases budget,
{
    if budget > 0 && bytes.len() > 0 {
        let b = bytes[0];
        assert(b & 0x7f < 128) by (bit_vector);
        lemma_pow128_pos((budget - 1) as nat);
        lemma_varint_dec_bounds(bytes.skip(1), (budget - 1) as nat);
        if b & 0x80 != 0 {
            match varint_dec_g(bytes.skip(1), (budget - 1) as nat) {
                Some(t) => {
                    assert((b & 0x7f) + 128 * t.0 < 128 * pow128((budget - 1) as nat));
                },
                None => {},
            }
        }
    }
}

/// The var-int encoding of `u`: seven payload bits per byte, least
/// significant group first, high bit set on every byte but the last.
pub open spec fn varint_enc(u: nat) -> Seq<u8>
    decreases u,
{
    if u < 128 {
        seq![u as u8]
    } else {
        seq![((u % 128) + 128) as u8] + varint_enc(u / 128)
    }
}

/// The value and byte count a var-int decode takes from the front of
/// `bytes`, reading at most `budget` groups and stopping early at the first
/// byte with a clear continuation bit; `None` when the bytes run out first.
pub open spec fn varint_dec_g(bytes: Seq<u8>, budget: nat) -> Option<(int, int)>
    decreases budget,
{
    if budget == 0 {
        Some((0, 0))
    } else if bytes.len() == 0 {
        None
    } else {
        let b = bytes[0];
        if b & 0x80 == 0 {
            Some(((b & 0x7f) as int, 1))
        } else {
            match varint_dec_g(bytes.skip(1), (budget - 1) as nat) {
                Some(t) => Some(((b & 0x7f) + 128 * t.0, t.1 + 1)),
                None => None,
            }
        }
    }
}

/// What a 32-bit var-int read decodes from the front of `bytes`: at most
/// four groups are taken.
pub open spec fn varint_dec(bytes: Seq<u8>) -> Option<(int, int)> {
    varint_dec_g(bytes, 4)
}

/// The bytes of a buffer from its cursor to the end; empty when the cursor
/// stands at or past the end.
pub open spec fn tail_of(b: BufView) -> Seq<u8> {
    if b.position <= b.data.len() {
        b.data.skip(b.position as int)
    } else {
        Seq::empty()
    }
}

/// Where the cursor stands after a failed multi-byte read: a read consumes
/// bytes until the data runs out, so the cursor ends at the end of the data,
/// or where it already stood if that is past the end.
pub open spec fn oob_cursor(b: BufView) -> nat {
    if b.position >= b.data.len() {
        b.position
    } else {
        b.data.len()
    }
}

/// How a partially accumulated var-int read relates to the decode of the
/// whole tail: `value` holds the groups already read, weighted by powers of
/// 128 up to `mult`, and `i` groups have been consumed.
pub open spec fn varint_partial(
    whole: Option<(int, int)>,
    rest: Option<(int, int)>,
    value: int,
    mult: int,
    i: int,
) -> bool {
    match rest {
        Some(t) => whole == Some((value + mult * t.0, i + t.1)),
        None => whole is None,
    }
}

/// The var-int encoding takes one byte per started group of seven bits:
/// one byte below 2^7, two below 2^14, and so on up to five bytes for the
/// rest of the 32-bit range.
pub proof fn lemma_varint_enc_len(u: nat)
    ensures
        varint_enc(u).len() >= 1,
        u < 0x80 ==> varint_enc(u).len() == 1,
        0x80 <= u < 0x4000 ==> varint_enc(u).len() == 2,
        0x4000 <= u < 0x200000 ==> varint_enc(u).len() == 3,
        0x200000 <= u < 0x10000000 ==> varint_enc(u).len() == 4,
        0x10000000 <= u < 0x100000000 ==> varint_enc(u).len() == 5,
    decreases u,
{
    if u >= 128 {
        lemma_varint_enc_len(u / 128);
    }
}

proof fn lemma_varint_round_trip_g(u: nat, rest: Seq<u8>, budget: nat)
    requires
        varint_enc(u).len() <= budget,
    ensures
        varint_dec_g(varint_enc(u) + rest, budget) == Some((
            u as int,
            varint_enc(u).len() as int,
        )),
    decreases u,
{
    let s = varint_enc(u) + rest;
    lemma_varint_enc_len(u);
    if u < 128 {
        let b: u8 = u as u8;
        assert(b < 128 ==> (b & 0x80 == 0 && (b & 0x7f) == b)) by (bit_vector);
        assert(s[0] == b);
    } else {
        let h: u8 = ((u % 128) + 128) as u8;
        assert(h >= 128 ==> (h & 0x80 != 0 && (h & 0x7f) as u16 == (h as u16) - 128)) by (bit_vector);
        assert(s[0] == h);
        lemma_varint_enc_len(u / 128);
        lemma_varint_round_trip_g(u / 128, rest, (budget - 1) as nat);
        assert(s.skip(1) =~= varint_enc(u / 128) + rest);
    }
}

/// Var-int round trip: decoding an encoding laid at the front of a stream
/// gives back the encoded value and consumes exactly the encoding, for
/// every value whose encoding stays within the four groups the decoder
/// takes — the values below 2^28. Larger values are written in five
/// groups, of which a decode takes back only the first four: their round
/// trip is not claimed.
pub proof fn lemma_varint_round_trip(u: nat, rest: Seq<u8>)
    requires
        u < 0x10000000,
    ensures
        varint_dec(varint_enc(u) + rest) == Some((u as int, varint_enc(u).len() as int)),
{
    lemma_varint_enc_len(u);
    lemma_varint_round_trip_g(u, rest, 4);
}

/// The var-int round trip stated on the 32-bit values a buffer writes:
/// writing a non-negative value below 2^28 and decoding at the same spot
/// gives the value back. A negative value is taken as its unsigned 32-bit
/// form, which needs five groups, so it is outside the decoder's reach.
pub proof fn lemma_varint_round_trip_i32(value: i32, rest: Seq<u8>)
    requires
        0 <= value < 0x10000000,
    ensures
        varint_dec(varint_enc((value as u32) as nat) + rest) == Some((
            value as int,
            varint_enc((value as u32) as nat).len() as int,
        )),
{
    lemma_varint_round_trip((value as u32) as nat, rest);
}

/// String round trip: decoding an encoded string laid at the front of a
/// stream gives back exactly its characters and consumes exactly the
/// encoding, for every string whose byte length the length prefix can
/// round-trip.
pub proof fn lemma_string_round_trip(s: Seq<char>, rest: Seq<u8>)
    requires
        encode_utf8(s).len() < 0x10000000,
    ensures
        string_dec(string_enc(s) + rest) == Some((s, string_enc(s).len() as int)),
{
    broadcast use vstd::utf8::encode_utf8_valid_utf8, vstd::utf8::encode_utf8_decode_utf8;

    let payload = encode_utf8(s);
    let n = payload.len();
    lemma_varint_round_trip(n, payload + rest);
    assert(varint_enc(n) + (payload + rest) =~= string_enc(s) + rest);
    let whole = string_enc(s) + rest;
    let c = varint_enc(n).len() as int;
    assert(whole.subrange(c, c + n) =~= payload);
}

/// 256 to the `n`: the number of values `n` bytes can hold.
pub open spec fn pow256(n: nat) -> nat
    decreases n,
{
    if n == 0 {
        1
    } else {
        256 * pow256((n - 1) as nat)
    }
}

/// The `n` low-order bytes of `v`, least significant first.
pub open spec fn le_bytes(v: nat, n: nat) -> Seq<u8>
    decreases n,
{
    if n == 0 {
        Seq::empty()
    } else {
        seq![(v % 256) as u8] + le_bytes(v / 256, (n - 1) as nat)
    }
}

/// The `n` low-order bytes of `v`, most significant first.
pub open spec fn be_bytes(v: nat, n: nat) -> Seq<u8> {
    le_bytes(v, n).reverse()
}

/// The value held by `s` read least significant byte first.
pub open spec fn le_val(s: Seq<u8>) -> nat
    decreases s.len(),
{
    if s.len() == 0 {
        0
    } else {
        (s[0] + 256 * le_val(s.drop_first())) as nat
    }
}

/// The value held by `s` read most significant byte first.
pub open spec fn be_val(s: Seq<u8>) -> nat {
    le_val(s.reverse())
}

/// A little-endian encoding holds exactly `n` bytes.
pub proof fn lemma_le_bytes_len(v: nat, n: nat)
    ensures
        le_bytes(v, n).len() == n,
        be_bytes(v, n).len() == n,
    decreases n,
{
    if n > 0 {
        lemma_le_bytes_len(v / 256, (n - 1) as nat);
    }
}

pub proof fn lemma_pow256_pos(n: nat)
    ensures
        pow256(n) >= 1,
    decreases n,
{
    if n > 0 {
        lemma_pow256_pos((n - 1) as nat);
    }
}

pub proof fn lemma_pow256_mono(a: nat, b: nat)
    requires
        a <= b,
    ensures
        pow256(a) <= pow256(b),
    decreases b,
{
    lemma_pow256_pos(a);
    if a < b {
        lemma_pow256_mono(a, (b - 1) as nat);
        lemma_pow256_pos((b - 1) as nat);
    }
}

pub proof fn lemma_pow256_values()
    ensures
        pow256(1) == 0x100,
        pow256(2) == 0x10000,
        pow256(3) == 0x1000000,
        pow256(4) == 0x100000000,
        pow256(8) == 0x10000000000000000,
{
    reveal_with_fuel(pow256, 9);
}

/// A byte sequence holds a value below 256 to its length.
pub proof fn lemma_le_val_bound(s: Seq<u8>)
    ensures
        le_val(s) < pow256(s.len()),
    decreases s.len(),
{
    if s.len() > 0 {
        lemma_le_val_bound(s.drop_first());
    }
}

/// Reading `n` little-endian bytes of `v` back gives `v` modulo 256 to
/// the `n`.
pub proof fn lemma_le_round_trip(v: nat, n: nat)
    ensures
        le_val(le_bytes(v, n)) == v % pow256(n),
    decreases n,
{
    lemma_pow256_pos(n);
    if n == 0 {
        assert(v % 1 == 0) by (nonlinear_arith);
    } else {
        let m = (n - 1) as nat;
        lemma_le_round_trip(v / 256, m);
        lemma_pow256_pos(m);
        assert(le_bytes(v, n).drop_first() =~= le_bytes(v / 256, m));
        vstd::arithmetic::div_mod::lemma_mod_breakdown(v as int, 256, pow256(m) as int);
    }
}

/// Reading `n` big-endian bytes of `v` back gives `v` modulo 256 to the
/// `n`.
pub proof fn lemma_be_round_trip(v: nat, n: nat)
    ensures
        be_val(be_bytes(v, n)) == v % pow256(n),
{
    assert(le_bytes(v, n).reverse().reverse() =~= le_bytes(v, n));
    lemma_le_round_trip(v, n);
}

/// The wire form of a string: a var-int byte-length prefix followed by the
/// UTF-8 bytes of its characters.
pub open spec fn string_enc(s: Seq<char>) -> Seq<u8> {
    varint_enc(encode_utf8(s).len()) + encode_utf8(s)
}

/// What a string read takes from the front of `bytes`: the characters and
/// the byte count consumed, or `None` when the length prefix or the payload
/// runs past the end or the payload is not valid UTF-8.
pub open spec fn string_dec(bytes: Seq<u8>) -> Option<(Seq<char>, int)> {
    match varint_dec(bytes) {
        None => None,
        Some(t) => if 0 <= t.0 && t.1 + t.0 <= bytes.len() {
            let payload = bytes.subrange(t.1, t.1 + t.0);
            if valid_utf8(payload) {
                Some((decode_utf8(payload), t.1 + t.0))
            } else {
                None
            }
        } else {
            None
        },
    }
}

/// How a fixed-width write lays `v` down as `n` bytes: in the buffer's
/// explicit byte order, or in one of the two orders when none is set (the
/// machine's own order is then used).
pub open spec fn wrote_uint(pre: BufView, post: BufView, v: nat, n: nat) -> bool {
    match pre.order {
        Some(ByteOrder::LittleEndian) => post == pre.wrote(le_bytes(v, n)),
        Some(ByteOrder::BigEndian) => post == pre.wrote(be_bytes(v, n)),
        None => post == pre.wrote(le_bytes(v, n)) || post == pre.wrote(be_bytes(v, n)),
    }
}

/// The value an `n`-byte fixed-width read takes from the cursor: the bytes
/// there, combined in the buffer's explicit byte order, or in one of the
/// two orders when none is set.
pub open spec fn read_uint_val(pre: BufView, v: nat, n: nat) -> bool {
    match pre.order {
        Some(ByteOrder::LittleEndian) => v == le_val(pre.at_cursor(n)),
        Some(ByteOrder::BigEndian) => v == be_val(pre.at_cursor(n)),
        None => v == le_val(pre.at_cursor(n)) || v == be_val(pre.at_cursor(n)),
    }
}

/// A write rejected because the buffer is not writable: the error names the
/// buffer and nothing changed.
pub open spec fn failed_not_writable<T>(pre: BufView, post: BufView, r: Result<T, Error>) -> bool {
    &&& r matches Err(e) && e matches Error::NotWritable(s) && s@ == "Buffer"@
    &&& post == pre
}

/// A read rejected because the data ran out: the error carries where the
/// cursor stood and how many bytes the buffer holds, and the cursor stays
/// where the failing byte read left it.
pub open spec fn failed_out_of_bounds<T>(pre: BufView, post: BufView, r: Result<T, Error>) -> bool {
    &&& r matches Err(Error::OutOfBounds(p, l)) && p == oob_cursor(pre) && l == pre.data.len()
    &&& post == (BufView { position: oob_cursor(pre), ..pre })
}

/// The one corner where a write's outcome is left open: the cursor stands
/// within a few bytes of the largest address, so moving it forward may
/// fail part-way. The writable flag and byte order are still untouched.
pub open spec fn cursor_overflow<T>(pre: BufView, post: BufView, r: Result<T, Error>) -> bool {
    &&& r is Ok || (r matches Err(e) && e matches Error::Other(_))
    &&& post.writable == pre.writable
    &&& post.order == pre.order
}

/// The mathematical model of a [`Buffer`]: its bytes, cursor, writable flag
/// and optional explicit byte order.
#[verifier::ext_equal]
pub struct BufView {
    pub data: Seq<u8>,
    pub position: nat,
    pub writable: bool,
    pub order: Option<ByteOrder>,
}

impl BufView {
    /// The buffer after `bytes` have been appended and the cursor moved past
    /// them.
    pub open spec fn wrote(self, bytes: Seq<u8>) -> BufView {
        BufView {
            data: self.data + bytes,
            position: (self.position + bytes.len()) as nat,
            writable: self.writable,
            order: self.order,
        }
    }

    /// The buffer with its cursor moved forward by `n` bytes.
    pub open spec fn advanced(self, n: nat) -> BufView {
        BufView { position: (self.position + n) as nat, ..self }
    }

    /// The `n` bytes at the cursor.
    pub open spec fn at_cursor(self, n: nat) -> Seq<u8> {
        self.data.subrange(self.position as int, (self.position + n) as int)
    }

    /// True when the data holds at least `n` bytes at the cursor.
    pub open spec fn can_read(self, n: nat) -> bool {
        self.position + n <= self.data.len()
    }
}

/// Cursor discipline: writing bytes moves the cursor forward by exactly
/// their count, and reading `n` bytes moves it forward by exactly `n` —
/// the cursor only ever moves forward under this buffer's own operations.
pub proof fn lemma_cursor_advances(b: BufView, bytes: Seq<u8>, n: nat)
    ensures
        b.wrote(bytes).position == b.position + bytes.len(),
        b.advanced(n).position == b.position + n,
{
}

/// An in-memory, cursor-addressed byte container with configurable
/// endianness and a writable flag.
#[derive(Clone, Debug)]
pub struct Buffer {
    data: Vec<u8>,
    writable: bool,
    order: Option<ByteOrder>,
    position: usize,
}

impl View for Buffer {
    type V = BufView;

    closed spec fn view(&self) -> BufView {
        BufView {
            data: self.data@,
            position: self.position as nat,
            writable: self.writable,
            order: self.order,
        }
    }
}

impl Buffer {
    /// A buffer over the given bytes with its cursor at the start.
    pub fn new(data: Vec<u8>, writable: bool, order: Option<ByteOrder>) -> (r: Buffer)
        ensures
            r@ == (BufView { data: data@, position: 0nat, writable, order }),
    {
        Buffer { data, writable, order, position: 0 }
    }

    /// A buffer with no bytes, for encoding.
    pub fn empty(writable: bool, order: Option<ByteOrder>) -> (r: Buffer)
        ensures
            r@ == (BufView { data: Seq::<u8>::empty(), position: 0nat, writable, order }),
    {
        Buffer::new(Vec::new(), writable, order)
    }

    /// A fresh empty buffer carrying over this buffer's writable flag and
    /// byte order, so a pipeline stage starts from a clean position.
    pub fn cloned_metadata(&self) -> (r: Buffer)
        ensures
            r@ == (BufView {
                data: Seq::<u8>::empty(),
                position: 0nat,
                writable: self@.writable,
                order: self@.order,
            }),
    {
        Buffer { data: Vec::new(), writable: self.writable, order: self.order, position: 0 }
    }

    /// Appends raw bytes at the end of the data and moves the cursor past
    /// them, like any other write. Fails with a not-writable error when the
    /// writable flag is off.
    pub fn write_all(&mut self, bytes: Vec<u8>) -> (r: Result<(), Error>)
        ensures
            !old(self)@.writable ==> (r matches Err(e) && e matches Error::NotWritable(s) && s@
                == "Buffer"@ && final(self)@ == old(self)@),
            old(self)@.writable && old(self)@.position + bytes@.len() <= usize::MAX ==> (r is Ok
                && final(self)@ == old(self)@.wrote(bytes@)),
            old(self)@.writable && old(self)@.position + bytes@.len() > usize::MAX ==> (r matches
            Err(e) && e matches Error::Other(_) && final(self)@ == old(self)@),
    {
        if !self.writable {
            return Err(Error::NotWritable("Buffer".to_owned()));
        }
        let n = bytes.len();
        if n > usize::MAX - self.position {
            return Err(Error::Other("Buffer cursor cannot move forward".to_owned()));
        }
        let mut i: usize = 0;
        while i < n
            invariant
                i <= n,
                n == bytes@.len(),
                old(self)@.position + n <= usize::MAX,
                self@ == (BufView {
                    data: old(self)@.data + bytes@.take(i as int),
                    position: (old(self)@.position + i) as nat,
                    ..old(self)@
                }),
            decreases n - i,
        {
            self.data.push(bytes[i]);
            self.position = self.position + 1;
            i += 1;
            proof {
                assert(old(self)@.data + bytes@.take(i - 1) + seq![bytes@[i - 1]] =~= old(
                    self,
                )@.data + bytes@.take(i as int));
            }
        }
        proof {
            assert(bytes@.take(n as int) =~= bytes@);
        }
        Ok(())
    }

    /// Appends one byte and moves the cursor past it. Succeeds exactly when
    /// the buffer is writable and the cursor can still move forward.
    pub fn write_u8(&mut self, value: u8) -> (r: Result<(), Error>)
        ensures
            !old(self)@.writable ==> (r matches Err(e) && e matches Error::NotWritable(s) && s@
                == "Buffer"@ && final(self)@ == old(self)@),
            old(self)@.writable && old(self)@.position < usize::MAX ==> (r is Ok && final(self)@
                == old(self)@.wrote(seq![value])),
            old(self)@.writable && old(self)@.position >= usize::MAX ==> (r matches Err(e) && e
                matches Error::Other(_) && final(self)@ == old(self)@),
    {
        if !self.writable {
            return Err(Error::NotWritable("Buffer".to_owned()));
        }
        if self.position == usize::MAX {
            return Err(Error::Other("Buffer cursor cannot move forward".to_owned()));
        }
        self.data.push(value);
        self.position = self.position + 1;
        proof {
            assert(self@.data =~= old(self)@.data + seq![value]);
        }
        Ok(())
    }

    /// Takes the byte at the cursor and moves the cursor past it. Succeeds
    /// exactly when the cursor is within the data; otherwise fails with an
    /// out-of-bounds error carrying the cursor and the bytes available.
    pub fn read_u8(&mut self) -> (r: Result<u8, Error>)
        ensures
            old(self)@.can_read(1) ==> (r matches Ok(b) && b == old(self)@.data[old(
                self,
            )@.position as int] && final(self)@ == old(self)@.advanced(1)),
            !old(self)@.can_read(1) ==> (r matches Err(Error::OutOfBounds(p, l)) && p == old(
                self,
            )@.position && l == old(self)@.data.len() && final(self)@ == old(self)@),
    {
        if self.position < self.data.len() {
            let b = self.data[self.position];
            self.position = self.position + 1;
            Ok(b)
        } else {
            Err(Error::OutOfBounds(self.position, self.data.len()))
        }
    }

    /// Moves the cursor to an arbitrary offset.
    pub fn set_position(&mut self, position: usize)
        ensures
            final(self)@ == (BufView { position: position as nat, ..old(self)@ }),
    {
        self.position = position;
    }

    /// The explicit byte order, if one was set.
    pub fn byte_order(&self) -> (r: Option<ByteOrder>)
        ensures
            r == self@.order,
    {
        self.order
    }

    /// Whether writes are allowed.
    pub fn writable(&self) -> (r: bool)
        ensures
            r == self@.writable,
    {
        self.writable
    }

    /// The cursor.
    pub fn position(&self) -> (r: usize)
        ensures
            r == self@.position,
    {
        self.position
    }

    /// A copy of all the bytes the buffer holds.
    pub fn to_bytes(&self) -> (r: Vec<u8>)
        ensures
            r@ == self@.data,
    {
        let n = self.data.len();
        let mut out: Vec<u8> = Vec::new();
        let mut i: usize = 0;
        while i < n
            invariant
                i <= n,
                n == self@.data.len(),
                out@ == self@.data.take(i as int),
            decreases n - i,
        {
            out.push(self.data[i]);
            i += 1;
            proof {
                assert(self@.data.take(i - 1) + seq![self@.data[i - 1]] =~= self@.data.take(
                    i as int,
                ));
            }
        }
        proof {
            assert(self@.data.take(n as int) =~= self@.data);
        }
        out
    }

    /// Moves the cursor back to the start without touching the data.
    pub fn reset(&mut self)
        ensures
            final(self)@ == (BufView { position: 0nat, ..old(self)@ }),
    {
        self.position = 0;
    }

    /// Writes `value` as a var-int: its 32 bits are taken as an unsigned
    /// quantity and emitted seven bits per byte, least significant group
    /// first, with the high bit marking that more groups follow.
    #[verifier::loop_isolation(false)]
    pub fn write_var_i32(&mut self, value: i32) -> (r: Result<(), Error>)
        ensures
            !old(self)@.writable ==> (r matches Err(e) && e matches Error::NotWritable(s) && s@
                == "Buffer"@ && final(self)@ == old(self)@),
            old(self)@.writable && old(self)@.position + 5 <= usize::MAX ==> (r is Ok
                && final(self)@ == old(self)@.wrote(varint_enc((value as u32) as nat))),
            old(self)@.writable && old(self)@.position + 5 > usize::MAX ==> cursor_overflow(
                old(self)@,
                final(self)@,
                r,
            ),
    {
        if !self.writable() {
            return Err(Error::NotWritable("Buffer".to_owned()));
        }
        let mut u: u32 = #[verifier::truncate] (value as u32);
        let ghost u0: nat = u as nat;
        let ghost mut prefix: Seq<u8> = Seq::empty();
        proof {
            lemma_varint_enc_len(u0);
            assert(self@ =~= old(self)@.wrote(prefix));
            assert(prefix + varint_enc(u as nat) =~= varint_enc(u0));
        }
        loop
            invariant
                self@.writable,
                varint_enc(u0) == prefix + varint_enc(u as nat),
                self@ == old(self)@.wrote(prefix),
                prefix.len() + varint_enc(u as nat).len() <= 5,
            decreases u,
        {
            let low: u8 = (u & 0x7f) as u8;
            let rest: u32 = u >> 7;
            let byte: u8 = if rest != 0 {
                low | 0x80
            } else {
                low
            };
            proof {
                assert(u & 0x7f == u % 128) by (bit_vector);
                assert(u >> 7 == u / 128) by (bit_vector);
                assert(u >> 7 != 0 ==> u >= 128) by (bit_vector);
                assert(u >> 7 == 0 ==> (u < 128 && (u & 0x7f) as u8 == u as u8)) by (bit_vector);
                assert(((u & 0x7f) as u8) | 0x80 == ((u % 128) + 128) as u8) by (bit_vector);
                lemma_varint_enc_len(u as nat);
            }
            match self.write_u8(byte) {
                Ok(()) => {},
                Err(e) => {
                    return Err(e);
                },
            }
            proof {
                let prefix_prev = prefix;
                prefix = prefix + seq![byte];
                assert(self@ =~= old(self)@.wrote(prefix));
                if rest != 0 {
                    assert(varint_enc(u as nat) == seq![byte] + varint_enc((u as nat) / 128));
                    assert(prefix_prev + varint_enc(u as nat) =~= prefix + varint_enc(
                        (u as nat) / 128,
                    ));
                    assert((u >> 7) as nat == (u as nat) / 128);
                } else {
                    assert(varint_enc(u as nat) == seq![byte]);
                    assert(prefix_prev + varint_enc(u as nat) =~= prefix);
                }
            }
            if rest == 0 {
                return Ok(());
            }
            u = rest;
        }
    }

    /// Reads a var-int: at most four groups of seven bits, least significant
    /// group first, stopping early at the first byte with a clear
    /// continuation bit.
    #[verifier::loop_isolation(false)]
    pub fn read_var_i32(&mut self) -> (r: Result<i32, Error>)
        ensures
            varint_dec(tail_of(old(self)@)) matches Some(t) ==> (r matches Ok(v) && v == t.0
                && final(self)@ == old(self)@.advanced(t.1 as nat)),
            varint_dec(tail_of(old(self)@)) is None ==> (r matches Err(Error::OutOfBounds(p, l))
                && l == old(self)@.data.len() && p == oob_cursor(old(self)@) && final(self)@ == (
            BufView { position: oob_cursor(old(self)@), ..old(self)@ })),
    {
        let ghost whole = varint_dec(tail_of(old(self)@));
        let mut value: i32 = 0;
        let mut mult: i32 = 1;
        let mut i: usize = 0;
        proof {
            lemma2_to64();
        }
        while i < 4
            invariant
                i <= 4,
                mult == pow2((7 * i) as nat),
                0 <= value < mult,
                self@ == old(self)@.advanced(i as nat),
                i > 0 ==> old(self)@.position + i <= old(self)@.data.len(),
                whole == varint_dec(tail_of(old(self)@)),
                varint_partial(
                    whole,
                    varint_dec_g(tail_of(self@), (4 - i) as nat),
                    value as int,
                    mult as int,
                    i as int,
                ),
            decreases 4 - i,
        {
            let ghost tail_i = tail_of(self@);
            let b = match self.read_u8() {
                Ok(b) => b,
                Err(e) => {
                    proof {
                        assert(tail_i.len() == 0);
                    }
                    return Err(e);
                },
            };
            proof {
                assert(tail_i.len() > 0 && tail_i[0] == b);
                assert(b & 0x7f < 128) by (bit_vector);
                assert(pow2((7 * i) as nat) * pow2(7) == pow2((7 * i + 7) as nat)) by {
                    lemma_pow2_adds((7 * i) as nat, 7);
                }
                assert(pow2(7) == 128 && pow2(21) == 0x200000 && pow2(28) == 0x10000000) by {
                    lemma2_to64();
                }
            }
            let g: i32 = (b & 0x7f) as i32;
            proof {
                assert(value + g * mult < 128 * mult) by (nonlinear_arith)
                    requires
                        0 <= value < mult,
                        0 <= g < 128,
                        0 < mult,
                ;
            }
            value = value + g * mult;
            if b & 0x80 == 0 {
                proof {
                    assert(varint_dec_g(tail_i, (4 - i) as nat) == Some(((b & 0x7f) as int, 1int)));
                    assert(g * mult == mult * ((b & 0x7f) as int)) by (nonlinear_arith)
                        requires
                            g == (b & 0x7f) as int,
                    ;
                }
                return Ok(value);
            }
            proof {
                assert(tail_of(self@) =~= tail_i.skip(1));
                let gg = (b & 0x7f) as int;
                match varint_dec_g(tail_i.skip(1), (3 - i) as nat) {
                    Some(t) => {
                        assert((value - gg * mult) + mult * (gg + 128 * t.0) == value + (128 * mult)
                            * t.0) by (nonlinear_arith);
                    },
                    None => {},
                }
            }
            mult = mult * 128;
            i = i + 1;
        }
        proof {
            assert(varint_dec_g(tail_of(self@), 0nat) == Some((0int, 0int)));
            assert(mult * 0 == 0) by (nonlinear_arith);
        }
        Ok(value)
    }

    /// Drops all bytes and moves the cursor back to the start.
    pub fn clear(&mut self)
        ensures
            final(self)@ == (BufView { data: Seq::<u8>::empty(), position: 0nat, ..old(self)@ }),
    {
        self.data.clear();
        self.position = 0;
    }
}

fn le_bytes_of(value: u64, n: usize) -> (r: Vec<u8>)
    requires
        n <= 8,
    ensures
        r@ == le_bytes(value as nat, n as nat),
        r@.len() == n,
{
    let mut out: Vec<u8> = Vec::new();
    let mut cur: u64 = value;
    let mut k: usize = 0;
    proof {
        assert(out@ + le_bytes(cur as nat, (n - k) as nat) =~= le_bytes(value as nat, n as nat));
    }
    while k < n
        invariant
            k <= n,
            out@.len() == k,
            le_bytes(value as nat, n as nat) == out@ + le_bytes(cur as nat, (n - k) as nat),
        decreases n - k,
    {
        let b: u8 = (cur % 256) as u8;
        proof {
            assert(le_bytes(cur as nat, (n - k) as nat) == seq![b] + le_bytes(
                (cur as nat) / 256,
                (n - k - 1) as nat,
            ));
            assert(out@ + seq![b] + le_bytes((cur as nat) / 256, (n - k - 1) as nat) =~= out@
                + le_bytes(cur as nat, (n - k) as nat));
        }
        out.push(b);
        cur = cur / 256;
        k += 1;
    }
    proof {
        assert(out@ + le_bytes(cur as nat, 0nat) =~= out@);
    }
    out
}

fn val_from_le(bytes: &Vec<u8>) -> (r: u64)
    requires
        bytes@.len() <= 8,
    ensures
        r == le_val(bytes@),
{
    let n = bytes.len();
    let mut acc: u64 = 0;
    let mut k: usize = n;
    proof {
        assert(bytes@.skip(n as int) =~= Seq::<u8>::empty());
    }
    while k > 0
        invariant
            k <= n,
            n == bytes@.len() <= 8,
            acc == le_val(bytes@.skip(k as int)),
        decreases k,
    {
        proof {
            assert(bytes@.skip((k - 1) as int).drop_first() =~= bytes@.skip(k as int));
            lemma_le_val_bound(bytes@.skip((k - 1) as int));
            lemma_pow256_mono(bytes@.skip((k - 1) as int).len() as nat, 8);
            lemma_pow256_values();
        }
        acc = acc * 256 + (bytes[k - 1] as u64);
        k -= 1;
    }
    proof {
        assert(bytes@.skip(0) =~= bytes@);
    }
    acc
}

fn rev_vec(bytes: &Vec<u8>) -> (r: Vec<u8>)
    ensures
        r@ == bytes@.reverse(),
{
    let n = bytes.len();
    let mut out: Vec<u8> = Vec::new();
    let mut k: usize = 0;
    while k < n
        invariant
            k <= n,
            n == bytes@.len(),
            out@.len() == k,
            forall|j: int| 0 <= j < k ==> out@[j] == bytes@[n - 1 - j],
        decreases n - k,
    {
        out.push(bytes[n - 1 - k]);
        k += 1;
    }
    proof {
        assert(out@ =~= bytes@.reverse());
    }
    out
}

impl Buffer {
    /// Resolves the effective byte order: the explicit one when set, else
    /// the machine's own, of which nothing is promised.
    fn effective_little(&self) -> (r: bool)
        ensures
            self@.order == Some(ByteOrder::LittleEndian) ==> r,
            self@.order == Some(ByteOrder::BigEndian) ==> !r,
    {
        match self.byte_order() {
            Some(order) => order == ByteOrder::LittleEndian,
            None => ByteOrder::system_order() == ByteOrder::LittleEndian,
        }
    }

    /// Appends each byte in turn, moving the cursor with every byte.
    fn write_raw(&mut self, bytes: &Vec<u8>) -> (r: Result<(), Error>)
        ensures
            !old(self)@.writable ==> failed_not_writable(old(self)@, final(self)@, r),
            old(self)@.writable && old(self)@.position + bytes@.len() <= usize::MAX ==> (r is Ok
                && final(self)@ == old(self)@.wrote(bytes@)),
            old(self)@.writable && old(self)@.position + bytes@.len() > usize::MAX
                ==> cursor_overflow(old(self)@, final(self)@, r),
    {
        if !self.writable() {
            return Err(Error::NotWritable("Buffer".to_owned()));
        }
        let n = bytes.len();
        let mut i: usize = 0;
        proof {
            assert(self@ =~= old(self)@.wrote(bytes@.take(0)));
        }
        while i < n
            invariant
                i <= n,
                n == bytes@.len(),
                self@.writable,
                self@ == old(self)@.wrote(bytes@.take(i as int)),
            decreases n - i,
        {
            match self.write_u8(bytes[i]) {
                Ok(()) => {},
                Err(e) => {
                    return Err(e);
                },
            }
            i += 1;
            proof {
                assert(old(self)@.data + bytes@.take(i - 1) + seq![bytes@[i - 1]] =~= old(self)@.data
                    + bytes@.take(i as int));
            }
        }
        proof {
            assert(bytes@.take(n as int) =~= bytes@);
        }
        Ok(())
    }

    /// Takes the next `n` bytes at the cursor, in stream order.
    fn read_raw(&mut self, n: usize) -> (r: Result<Vec<u8>, Error>)
        requires
            n >= 1,
        ensures
            old(self)@.can_read(n as nat) ==> (r matches Ok(v) && v@ == old(self)@.at_cursor(
                n as nat,
            ) && v@.len() == n && final(self)@ == old(self)@.advanced(n as nat)),
            !old(self)@.can_read(n as nat) ==> failed_out_of_bounds(old(self)@, final(self)@, r),
    {
        let mut out: Vec<u8> = Vec::new();
        let mut i: usize = 0;
        while i < n
            invariant
                i <= n,
                out@.len() == i,
                self@ == old(self)@.advanced(i as nat),
                i > 0 ==> old(self)@.position + i <= old(self)@.data.len(),
                old(self)@.can_read(i as nat) ==> out@ == old(self)@.at_cursor(i as nat),
            decreases n - i,
        {
            let b = match self.read_u8() {
                Ok(b) => b,
                Err(e) => {
                    return Err(e);
                },
            };
            out.push(b);
            i += 1;
            proof {
                assert(old(self)@.at_cursor((i - 1) as nat) + seq![
                    old(self)@.data[old(self)@.position + i - 1],
                ] =~= old(self)@.at_cursor(i as nat));
            }
        }
        Ok(out)
    }

    /// Writes the `n` low-order bytes of `value` in the buffer's effective
    /// byte order.
    fn write_uint(&mut self, value: u64, n: usize) -> (r: Result<(), Error>)
        requires
            1 <= n <= 8,
        ensures
            !old(self)@.writable ==> failed_not_writable(old(self)@, final(self)@, r),
            old(self)@.writable && old(self)@.position + n <= usize::MAX ==> (r is Ok && wrote_uint(
                old(self)@,
                final(self)@,
                value as nat,
                n as nat,
            )),
            old(self)@.writable && old(self)@.position + n > usize::MAX ==> cursor_overflow(old(self)@, final(self)@, r),
    {
        let little = self.effective_little();
        let lb = le_bytes_of(value, n);
        let bytes = if little {
            lb
        } else {
            rev_vec(&lb)
        };
        self.write_raw(&bytes)
    }

    /// Reads `n` bytes at the cursor and combines them in the buffer's
    /// effective byte order.
    fn read_uint(&mut self, n: usize) -> (r: Result<u64, Error>)
        requires
            1 <= n <= 8,
        ensures
            old(self)@.can_read(n as nat) ==> (r matches Ok(v) && read_uint_val(
                old(self)@,
                v as nat,
                n as nat,
            ) && v < pow256(n as nat) && final(self)@ == old(self)@.advanced(n as nat)),
            !old(self)@.can_read(n as nat) ==> failed_out_of_bounds(old(self)@, final(self)@, r),
    {
        let raw = match self.read_raw(n) {
            Ok(v) => v,
            Err(e) => {
                return Err(e);
            },
        };
        let little = self.effective_little();
        let bytes = if little {
            raw
        } else {
            rev_vec(&raw)
        };
        proof {
            lemma_le_val_bound(bytes@);
            if !little {
                assert(le_val(bytes@) == be_val(old(self)@.at_cursor(n as nat)));
                lemma_le_val_bound(bytes@);
            }
        }
        Ok(val_from_le(&bytes))
    }

    /// Writes `value` as two bytes in the buffer's effective byte order.
    pub fn write_u16(&mut self, value: u16) -> (r: Result<(), Error>)
        ensures
            !old(self)@.writable ==> failed_not_writable(old(self)@, final(self)@, r),
            old(self)@.writable && old(self)@.position + 2 <= usize::MAX ==> (r is Ok && wrote_uint(
                old(self)@,
                final(self)@,
                value as nat,
                2,
            )),
            old(self)@.writable && old(self)@.position + 2 > usize::MAX ==> cursor_overflow(old(self)@, final(self)@, r),
    {
        self.write_uint(value as u64, 2)
    }

    /// Reads two bytes at the cursor in the buffer's effective byte order.
    pub fn read_u16(&mut self) -> (r: Result<u16, Error>)
        ensures
            old(self)@.can_read(2) ==> (r matches Ok(v) && read_uint_val(old(self)@, v as nat, 2)
                && final(self)@ == old(self)@.advanced(2)),
            !old(self)@.can_read(2) ==> failed_out_of_bounds(old(self)@, final(self)@, r),
    {
        let v = match self.read_uint(2) {
            Ok(v) => v,
            Err(e) => {
                return Err(e);
            },
        };
        proof {
            lemma_pow256_values();
            assert((v as u16) as u64 == v) by (bit_vector)
                requires
                    v < 0x10000,
            ;
        }
        Ok(#[verifier::truncate] (v as u16))
    }

    /// Writes `value` as four bytes in the buffer's effective byte order.
    pub fn write_u32(&mut self, value: u32) -> (r: Result<(), Error>)
        ensures
            !old(self)@.writable ==> failed_not_writable(old(self)@, final(self)@, r),
            old(self)@.writable && old(self)@.position + 4 <= usize::MAX ==> (r is Ok && wrote_uint(
                old(self)@,
                final(self)@,
                value as nat,
                4,
            )),
            old(self)@.writable && old(self)@.position + 4 > usize::MAX ==> cursor_overflow(old(self)@, final(self)@, r),
    {
        self.write_uint(value as u64, 4)
    }

    /// Reads four bytes at the cursor in the buffer's effective byte order.
    pub fn read_u32(&mut self) -> (r: Result<u32, Error>)
        ensures
            old(self)@.can_read(4) ==> (r matches Ok(v) && read_uint_val(old(self)@, v as nat, 4)
                && final(self)@ == old(self)@.advanced(4)),
            !old(self)@.can_read(4) ==> failed_out_of_bounds(old(self)@, final(self)@, r),
    {
        let v = match self.read_uint(4) {
            Ok(v) => v,
            Err(e) => {
                return Err(e);
            },
        };
        proof {
            lemma_pow256_values();
            assert((v as u32) as u64 == v) by (bit_vector)
                requires
                    v < 0x100000000,
            ;
        }
        Ok(#[verifier::truncate] (v as u32))
    }

    /// Writes `value` as eight bytes in the buffer's effective byte order.
    pub fn write_u64(&mut self, value: u64) -> (r: Result<(), Error>)
        ensures
            !old(self)@.writable ==> failed_not_writable(old(self)@, final(self)@, r),
            old(self)@.writable && old(self)@.position + 8 <= usize::MAX ==> (r is Ok && wrote_uint(
                old(self)@,
                final(self)@,
                value as nat,
                8,
            )),
            old(self)@.writable && old(self)@.position + 8 > usize::MAX ==> cursor_overflow(old(self)@, final(self)@, r),
    {
        self.write_uint(value, 8)
    }

    /// Reads eight bytes at the cursor in the buffer's effective byte order.
    pub fn read_u64(&mut self) -> (r: Result<u64, Error>)
        ensures
            old(self)@.can_read(8) ==> (r matches Ok(v) && read_uint_val(old(self)@, v as nat, 8)
                && final(self)@ == old(self)@.advanced(8)),
            !old(self)@.can_read(8) ==> failed_out_of_bounds(old(self)@, final(self)@, r),
    {
        self.read_uint(8)
    }

    /// Writes `value` as one byte, its bits taken unsigned.
    pub fn write_i8(&mut self, value: i8) -> (r: Result<(), Error>)
        ensures
            !old(self)@.writable ==> failed_not_writable(old(self)@, final(self)@, r),
            old(self)@.writable && old(self)@.position + 1 <= usize::MAX ==> (r is Ok && wrote_uint(
                old(self)@,
                final(self)@,
                (value as u8) as nat,
                1,
            )),
            old(self)@.writable && old(self)@.position + 1 > usize::MAX ==> cursor_overflow(old(self)@, final(self)@, r),
    {
        self.write_uint((#[verifier::truncate] (value as u8)) as u64, 1)
    }

    /// Reads one byte at the cursor, reinterpreted as a signed value.
    pub fn read_i8(&mut self) -> (r: Result<i8, Error>)
        ensures
            old(self)@.can_read(1) ==> (r matches Ok(v) && read_uint_val(
                old(self)@,
                (v as u8) as nat,
                1,
            ) && final(self)@ == old(self)@.advanced(1)),
            !old(self)@.can_read(1) ==> failed_out_of_bounds(old(self)@, final(self)@, r),
    {
        let v = match self.read_uint(1) {
            Ok(v) => v,
            Err(e) => {
                return Err(e);
            },
        };
        proof {
            lemma_pow256_values();
            assert(((v as i8) as u8) as u64 == v) by (bit_vector)
                requires
                    v < 0x100,
            ;
        }
        Ok(#[verifier::truncate] (v as i8))
    }

    /// Writes `value` as two bytes, its bits taken unsigned, in the
    /// buffer's effective byte order.
    pub fn write_i16(&mut self, value: i16) -> (r: Result<(), Error>)
        ensures
            !old(self)@.writable ==> failed_not_writable(old(self)@, final(self)@, r),
            old(self)@.writable && old(self)@.position + 2 <= usize::MAX ==> (r is Ok && wrote_uint(
                old(self)@,
                final(self)@,
                (value as u16) as nat,
                2,
            )),
            old(self)@.writable && old(self)@.position + 2 > usize::MAX ==> cursor_overflow(old(self)@, final(self)@, r),
    {
        self.write_uint((#[verifier::truncate] (value as u16)) as u64, 2)
    }

    /// Reads two bytes at the cursor in the buffer's effective byte order,
    /// reinterpreted as a signed value.
    pub fn read_i16(&mut self) -> (r: Result<i16, Error>)
        ensures
            old(self)@.can_read(2) ==> (r matches Ok(v) && read_uint_val(
                old(self)@,
                (v as u16) as nat,
                2,
            ) && final(self)@ == old(self)@.advanced(2)),
            !old(self)@.can_read(2) ==> failed_out_of_bounds(old(self)@, final(self)@, r),
    {
        let v = match self.read_uint(2) {
            Ok(v) => v,
            Err(e) => {
                return Err(e);
            },
        };
        proof {
            lemma_pow256_values();
            assert(((v as i16) as u16) as u64 == v) by (bit_vector)
                requires
                    v < 0x10000,
            ;
        }
        Ok(#[verifier::truncate] (v as i16))
    }

    /// Writes `value` as four bytes, its bits taken unsigned, in the
    /// buffer's effective byte order.
    pub fn write_i32(&mut self, value: i32) -> (r: Result<(), Error>)
        ensures
            !old(self)@.writable ==> failed_not_writable(old(self)@, final(self)@, r),
            old(self)@.writable && old(self)@.position + 4 <= usize::MAX ==> (r is Ok && wrote_uint(
                old(self)@,
                final(self)@,
                (value as u32) as nat,
                4,
            )),
            old(self)@.writable && old(self)@.position + 4 > usize::MAX ==> cursor_overflow(old(self)@, final(self)@, r),
    {
        self.write_uint((#[verifier::truncate] (value as u32)) as u64, 4)
    }

    /// Reads four bytes at the cursor in the buffer's effective byte order,
    /// reinterpreted as a signed value.
    pub fn read_i32(&mut self) -> (r: Result<i32, Error>)
        ensures
            old(self)@.can_read(4) ==> (r matches Ok(v) && read_uint_val(
                old(self)@,
                (v as u32) as nat,
                4,
            ) && final(self)@ == old(self)@.advanced(4)),
            !old(self)@.can_read(4) ==> failed_out_of_bounds(old(self)@, final(self)@, r),
    {
        let v = match self.read_uint(4) {
            Ok(v) => v,
            Err(e) => {
                return Err(e);
            },
        };
        proof {
            lemma_pow256_values();
            assert(((v as i32) as u32) as u64 == v) by (bit_vector)
                requires
                    v < 0x100000000,
            ;
        }
        Ok(#[verifier::truncate] (v as i32))
    }

    /// Writes `value` as eight bytes, its bits taken unsigned, in the
    /// buffer's effective byte order.
    pub fn write_i64(&mut self, value: i64) -> (r: Result<(), Error>)
        ensures
            !old(self)@.writable ==> failed_not_writable(old(self)@, final(self)@, r),
            old(self)@.writable && old(self)@.position + 8 <= usize::MAX ==> (r is Ok && wrote_uint(
                old(self)@,
                final(self)@,
                (value as u64) as nat,
                8,
            )),
            old(self)@.writable && old(self)@.position + 8 > usize::MAX ==> cursor_overflow(old(self)@, final(self)@, r),
    {
        self.write_uint(#[verifier::truncate] (value as u64), 8)
    }

    /// Reads eight bytes at the cursor in the buffer's effective byte
    /// order, reinterpreted as a signed value.
    pub fn read_i64(&mut self) -> (r: Result<i64, Error>)
        ensures
            old(self)@.can_read(8) ==> (r matches Ok(v) && read_uint_val(
                old(self)@,
                (v as u64) as nat,
                8,
            ) && final(self)@ == old(self)@.advanced(8)),
            !old(self)@.can_read(8) ==> failed_out_of_bounds(old(self)@, final(self)@, r),
    {
        let v = match self.read_uint(8) {
            Ok(v) => v,
            Err(e) => {
                return Err(e);
            },
        };
        proof {
            assert(((v as i64) as u64) == v) by (bit_vector);
        }
        Ok(#[verifier::truncate] (v as i64))
    }

    /// Writes a borrowed string: a var-int byte-length prefix, then its
    /// UTF-8 bytes.
    pub fn write_str(&mut self, string: &str) -> (r: Result<(), Error>)
        ensures
            !old(self)@.writable ==> failed_not_writable(old(self)@, final(self)@, r),
            old(self)@.writable && encode_utf8(string@).len() > i32::MAX ==> (r matches Err(e) && e
                matches Error::Other(_) && final(self)@ == old(self)@),
            old(self)@.writable && encode_utf8(string@).len() <= i32::MAX && old(self)@.position + 5
                + encode_utf8(string@).len() <= usize::MAX ==> (r is Ok && final(self)@ == old(
                self,
            )@.wrote(string_enc(string@))),
            old(self)@.writable && encode_utf8(string@).len() <= i32::MAX && old(self)@.position + 5
                + encode_utf8(string@).len() > usize::MAX ==> cursor_overflow(old(self)@, final(self)@, r),
    {
        self.write_string(string.to_owned())
    }

    /// Writes a string: a var-int byte-length prefix, then its UTF-8 bytes.
    /// A string whose byte length does not fit the prefix is rejected.
    pub fn write_string(&mut self, string: String) -> (r: Result<(), Error>)
        ensures
            !old(self)@.writable ==> failed_not_writable(old(self)@, final(self)@, r),
            old(self)@.writable && encode_utf8(string@).len() > i32::MAX ==> (r matches Err(e) && e
                matches Error::Other(_) && final(self)@ == old(self)@),
            old(self)@.writable && encode_utf8(string@).len() <= i32::MAX && old(self)@.position + 5
                + encode_utf8(string@).len() <= usize::MAX ==> (r is Ok && final(self)@ == old(
                self,
            )@.wrote(string_enc(string@))),
            old(self)@.writable && encode_utf8(string@).len() <= i32::MAX && old(self)@.position + 5
                + encode_utf8(string@).len() > usize::MAX ==> cursor_overflow(old(self)@, final(self)@, r),
    {
        if !self.writable() {
            return Err(Error::NotWritable("Buffer".to_owned()));
        }
        let bytes = slice_to_vec(string.as_str().as_bytes());
        let n = bytes.len();
        if n > (i32::MAX as usize) {
            return Err(Error::Other("Buffer cannot prefix a string this long".to_owned()));
        }
        proof {
            lemma_varint_enc_len(n as nat);
        }
        match self.write_var_i32(n as i32) {
            Ok(()) => {},
            Err(e) => {
                return Err(e);
            },
        }
        let r = self.write_raw(&bytes);
        proof {
            if old(self)@.position + 5 + n <= usize::MAX {
                assert(old(self)@.data + varint_enc(n as nat) + bytes@ =~= old(self)@.data
                    + string_enc(string@));
            }
        }
        r
    }

    /// Reads a string: a var-int byte-length prefix, then that many bytes,
    /// validated as UTF-8. Invalid bytes are a decode error, never a panic.
    pub fn read_string(&mut self) -> (r: Result<String, Error>)
        ensures
            string_dec(tail_of(old(self)@)) matches Some(t) ==> (r matches Ok(s) && s@ == t.0
                && final(self)@ == old(self)@.advanced(t.1 as nat)),
            varint_dec(tail_of(old(self)@)) is None ==> failed_out_of_bounds(
                old(self)@,
                final(self)@,
                r,
            ),
            (match varint_dec(tail_of(old(self)@)) {
                Some(t) => t.1 + t.0 > tail_of(old(self)@).len() ==> (r matches Err(
                    Error::OutOfBounds(p, l),
                ) && p == old(self)@.data.len() && l == old(self)@.data.len() && final(self)@ == (
                BufView { position: old(self)@.data.len() as nat, ..old(self)@ })),
                None => true,
            }),
            (match varint_dec(tail_of(old(self)@)) {
                Some(t) => t.1 + t.0 <= tail_of(old(self)@).len() && string_dec(
                    tail_of(old(self)@),
                ) is None ==> (r matches Err(e) && e matches Error::Other(_) && final(self)@ == old(
                    self,
                )@.advanced((t.1 + t.0) as nat)),
                None => true,
            }),
    {
        let ghost tail0 = tail_of(old(self)@);
        proof {
            lemma_varint_dec_bounds(tail0, 4);
            lemma_pow128_4();
        }
        let n = match self.read_var_i32() {
            Ok(n) => n,
            Err(e) => {
                return Err(e);
            },
        };
        let count: usize = n as usize;
        let ghost mid = self@;
        let raw: Vec<u8> = if count == 0 {
            Vec::new()
        } else {
            match self.read_raw(count) {
                Ok(v) => v,
                Err(e) => {
                    return Err(e);
                },
            }
        };
        proof {
            let t = varint_dec(tail0).unwrap();
            assert(raw@ =~= tail0.subrange(t.1, t.1 + t.0));
            assert(old(self)@.advanced(t.1 as nat).advanced(t.0 as nat) =~= old(self)@.advanced(
                (t.1 + t.0) as nat,
            ));
        }
        match bytes_to_string(raw) {
            Some(s) => Ok(s),
            None => Err(Error::Other("Buffer holds a string with invalid UTF-8 bytes".to_owned())),
        }
    }
}

/// A copy of a byte slice as an owned vector.
fn slice_to_vec(s: &[u8]) -> (r: Vec<u8>)
    ensures
        r@ == s@,
{
    let n = s.len();
    let mut out: Vec<u8> = Vec::new();
    let mut i: usize = 0;
    while i < n
        invariant
            i <= n,
            n == s@.len(),
            out@ == s@.take(i as int),
        decreases n - i,
    {
        out.push(s[i]);
        i += 1;
        proof {
            assert(s@.take(i - 1) + seq![s@[i - 1]] =~= s@.take(i as int));
        }
    }
    proof {
        assert(s@.take(n as int) =~= s@);
    }
    out
}

/// Relies on `String::from_utf8`: it returns the string whose characters
/// the given bytes encode, and fails exactly when the bytes are not valid
/// UTF-8.
#[verifier::external_body]
fn bytes_to_string(bytes: Vec<u8>) -> (r: Option<String>)
    ensures
        match r {
            Some(s) => valid_utf8(bytes@) && s@ == decode_utf8(bytes@),
            None => !valid_utf8(bytes@),
        },
{
    String::from_utf8(bytes).ok()
}

} // verus!

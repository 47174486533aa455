//! Protobuf's primitive encodings — the base-128 varint, the field tag, and
//! the `int32`/`int64` scalars — as `buffa` writes and reads them.
//!
//! Writing is stated exactly: a varint is little-endian base 128 with the
//! high bit of each byte marking a continuation, which the protobuf encoding
//! documentation fixes byte for byte. Reading is stated too, error cases
//! included, and that a reader gives back what the matching writer wrote,
//! whatever follows it, is proved from the two statements. How an unknown
//! field is stepped over, groups included, is stated the same way.

use buffa::encoding::{
    decode_varint, encode_varint, skip_field_depth, varint_len, Tag, WireType,
};
use buffa::types::{
    decode_int32, decode_int64, encode_int32, encode_int64, int32_encoded_len, int64_encoded_len,
};
use buffa::DecodeError;
use crate::wire::{DecodeFailure, WireError};
use vstd::prelude::*;

verus! {

#[verifier::external_type_specification]
#[verifier::external_body]
pub struct ExDecodeError(DecodeError);

#[verifier::external_type_specification]
#[verifier::external_body]
pub struct ExTag(Tag);

/// The wire type of a varint-encoded scalar field.
pub const VARINT: u8 = 0;

/// The wire type of a length-delimited field (a nested message here).
pub const LEN: u8 = 2;

/// The largest field number a tag can carry, `2^29 - 1`.
pub open spec fn max_field_number() -> int {
    0x1FFF_FFFF
}

/// `after` is what is left of `before` once some bytes were taken off its
/// front: reading a `&[u8]` only ever advances it.
pub open spec fn is_tail(after: Seq<u8>, before: Seq<u8>) -> bool {
    after.len() <= before.len() && after == before.skip(before.len() - after.len())
}

/// What is left after taking `n` bytes is a tail.
pub proof fn lemma_skip_is_tail(before: Seq<u8>, n: int)
    requires
        0 <= n <= before.len(),
    ensures
        is_tail(before.skip(n), before),
{
    assert(before.len() - before.skip(n).len() == n);
}

/// Taking nothing leaves a tail.
pub proof fn lemma_tail_of_itself(b: Seq<u8>)
    ensures
        is_tail(b, b),
{
    assert(b =~= b.skip(0));
}

/// A tail of a tail is a tail.
pub proof fn lemma_tail_of_tail(a: Seq<u8>, b: Seq<u8>, c: Seq<u8>)
    requires
        is_tail(a, b),
        is_tail(b, c),
    ensures
        is_tail(a, c),
{
    assert(a =~= c.skip(c.len() - a.len()));
}

/// The wire type of a 64-bit fixed-width field.
pub const FIXED64: u8 = 1;

/// The wire type of a 32-bit fixed-width field.
pub const FIXED32: u8 = 5;

/// The wire type of a group's closing tag.
pub const END_GROUP: u8 = 4;

/// Why `decode_varint` fails on `bytes` from position `i` on: the bytes run
/// out first, or the tenth byte carries more than bit 63. Meaningful where
/// [`varint_read_at`] is `None`.
pub open spec fn varint_fault_at(bytes: Seq<u8>, i: nat) -> DecodeFailure
    decreases 10 - i,
{
    if i >= 10 || i >= bytes.len() {
        DecodeFailure::UnexpectedEof
    } else if i == 9 {
        DecodeFailure::VarintTooLong
    } else if bytes[i as int] < 128 {
        DecodeFailure::UnexpectedEof
    } else {
        varint_fault_at(bytes, i + 1)
    }
}

/// Why `decode_varint` fails on `bytes`.
pub open spec fn varint_fault(bytes: Seq<u8>) -> DecodeFailure {
    varint_fault_at(bytes, 0)
}

/// Why `Tag::decode` fails on `bytes`: the varint's own failure, a value
/// past 32 bits or a field number of zero, or a wire type above `5`.
pub open spec fn tag_fault(bytes: Seq<u8>) -> DecodeFailure {
    match varint_read(bytes) {
        None => varint_fault(bytes),
        Some((v, _)) => if v <= 0xFFFF_FFFF && v % 8 > 5 {
            DecodeFailure::InvalidWireType((v % 8) as u32)
        } else {
            DecodeFailure::InvalidFieldNumber
        },
    }
}

/// How `skip_field_depth` steps over an unknown field of a wire type that
/// holds no nested fields, at the front of `bytes`: its varint, eight bytes,
/// its length prefix and that many bytes, or four bytes — the bytes taken,
/// or why it failed. A closing group tag on its own is refused, as is a wire
/// type protobuf does not have.
pub open spec fn flat_field(wire_type: u8, bytes: Seq<u8>) -> Result<nat, DecodeFailure> {
    if wire_type == VARINT {
        match varint_read(bytes) {
            Some((_, n)) => Ok(n),
            None => Err(varint_fault(bytes)),
        }
    } else if wire_type == FIXED64 {
        if bytes.len() >= 8 {
            Ok(8)
        } else {
            Err(DecodeFailure::UnexpectedEof)
        }
    } else if wire_type == LEN {
        match varint_read(bytes) {
            Some((len, n)) => if len > usize::MAX {
                Err(DecodeFailure::MessageTooLarge)
            } else if n <= bytes.len() && len <= bytes.len() - n {
                Ok((n + len) as nat)
            } else {
                Err(DecodeFailure::UnexpectedEof)
            },
            None => Err(varint_fault(bytes)),
        }
    } else if wire_type == FIXED32 {
        if bytes.len() >= 4 {
            Ok(4)
        } else {
            Err(DecodeFailure::UnexpectedEof)
        }
    } else {
        Err(DecodeFailure::InvalidWireType(wire_type as u32))
    }
}

/// The wire type of a group's opening tag.
pub const START_GROUP: u8 = 3;

/// How `skip_field_depth` steps over the value of a field with this number
/// and wire type at the front of `bytes`, groups nested at most `depth`
/// deep: the bytes taken, or why it failed.
#[verifier::opaque]
pub open spec fn field_skipped(field_number: u32, wire_type: u8, bytes: Seq<u8>, depth: u32) -> Result<
    nat,
    DecodeFailure,
>
    decreases bytes.len(), 3int,
{
    if wire_type == START_GROUP {
        group_skipped(field_number, bytes, depth)
    } else {
        flat_field(wire_type, bytes)
    }
}

/// How `skip_field_depth` steps over a group opened with `field_number`,
/// whose fields are at the front of `bytes`: refused with no nesting budget
/// left, else its fields one level deeper, through the closing tag.
pub open spec fn group_skipped(field_number: u32, bytes: Seq<u8>, depth: u32) -> Result<
    nat,
    DecodeFailure,
>
    decreases bytes.len(), 2int,
{
    if depth == 0 {
        Err(DecodeFailure::RecursionLimitExceeded)
    } else {
        group_fields_skipped(field_number, bytes, (depth - 1) as u32)
    }
}

/// The fields of a group opened with `field_number`, up to and including
/// the closing tag, which must carry the same number: each field's tag, then
/// its value stepped over at `depth`.
pub open spec fn group_fields_skipped(field_number: u32, bytes: Seq<u8>, depth: u32) -> Result<
    nat,
    DecodeFailure,
>
    decreases bytes.len(), 1int,
{
    match tag_read(bytes) {
        None => Err(tag_fault(bytes)),
        Some((f, w, n)) => if w == END_GROUP {
            if f != field_number {
                Err(DecodeFailure::InvalidEndGroup(f as u32))
            } else {
                Ok(n)
            }
        } else if 1 <= n <= bytes.len() {
            match field_skipped(f, w, bytes.skip(n as int), depth) {
                Err(e) => Err(e),
                Ok(m) => if m <= bytes.len() - n {
                    match group_fields_skipped(field_number, bytes.skip((n + m) as int), depth) {
                        Ok(k) => Ok(n + m + k),
                        Err(e) => Err(e),
                    }
                } else {
                    Err(DecodeFailure::UnexpectedEof)
                },
            }
        } else {
            Err(DecodeFailure::UnexpectedEof)
        },
    }
}

/// A varint read from position `i` ends within the bytes.
proof fn lemma_varint_read_at_within(bytes: Seq<u8>, i: nat)
    ensures
        varint_read_at(bytes, i) matches Some((_, n)) ==> i < n <= bytes.len(),
    decreases 10 - i,
{
    if i < 9 && i < bytes.len() && bytes[i as int] >= 128 {
        lemma_varint_read_at_within(bytes, i + 1);
    }
}

/// A varint or a tag takes at least one byte and no more than there are.
pub proof fn lemma_reads_stay_within(bytes: Seq<u8>)
    ensures
        varint_read(bytes) matches Some((_, n)) ==> 1 <= n <= bytes.len(),
        tag_read(bytes) matches Some((_, _, n)) ==> 1 <= n <= bytes.len(),
{
    reveal(varint_read);
    reveal(tag_read);
    lemma_varint_read_at_within(bytes, 0);
}

/// Skipping a field never takes more bytes than there are, so the bound
/// [`group_fields_skipped`] checks always holds.
pub proof fn lemma_skipping_stays_within(field_number: u32, wire_type: u8, bytes: Seq<u8>, depth: u32)
    ensures
        field_skipped(field_number, wire_type, bytes, depth) matches Ok(m) ==> m <= bytes.len(),
        group_skipped(field_number, bytes, depth) matches Ok(m) ==> m <= bytes.len(),
        group_fields_skipped(field_number, bytes, depth) matches Ok(m) ==> m <= bytes.len(),
    decreases bytes.len(), depth,
{
    reveal(field_skipped);
    lemma_reads_stay_within(bytes);
    if depth > 0 {
        lemma_skipping_stays_within(field_number, wire_type, bytes, (depth - 1) as u32);
    }
    match tag_read(bytes) {
        Some((f, w, n)) => {
            if w != END_GROUP && 1 <= n <= bytes.len() {
                let rest = bytes.skip(n as int);
                lemma_skipping_stays_within(f, w, rest, depth);
                if let Ok(m) = field_skipped(f, w, rest, depth) {
                    if m <= bytes.len() - n {
                        lemma_skipping_stays_within(
                            field_number,
                            wire_type,
                            bytes.skip((n + m) as int),
                            depth,
                        );
                    }
                }
            }
        },
        None => {},
    }
}

/// The two wire types this crate writes.
#[derive(Clone, Copy, PartialEq, Eq, Debug)]
pub enum WireKind {
    Varint,
    LengthDelimited,
}

impl WireKind {
    /// The wire type's number on the wire.
    pub open spec fn code(self) -> u8 {
        match self {
            WireKind::Varint => VARINT,
            WireKind::LengthDelimited => LEN,
        }
    }
}

/// The varint encoding of `v`: seven bits per byte, least significant group
/// first, with the high bit set on every byte but the last.
pub open spec fn varint(v: nat) -> Seq<u8>
    decreases v,
{
    if v < 128 {
        seq![v as u8]
    } else {
        seq![(v % 128 + 128) as u8] + varint(v / 128)
    }
}

/// An `int32` as protobuf widens it before writing: sign-extended to 64 bits
/// and read as unsigned, so a negative value takes ten bytes.
pub open spec fn int32_as_varint(v: i32) -> nat {
    if v >= 0 {
        v as nat
    } else {
        (v + 0x1_0000_0000_0000_0000int) as nat
    }
}

/// An `int64` read as unsigned, two's complement.
pub open spec fn int64_as_varint(v: i64) -> nat {
    if v >= 0 {
        v as nat
    } else {
        (v + 0x1_0000_0000_0000_0000int) as nat
    }
}

/// The low 32 bits of a decoded varint read as an `i32`, as `int32` decoding
/// truncates.
pub open spec fn varint_as_int32(x: u64) -> int {
    let low = x as int % 0x1_0000_0000;
    if low >= 0x8000_0000 {
        low - 0x1_0000_0000
    } else {
        low
    }
}

/// A decoded varint read as an `i64`, two's complement.
pub open spec fn varint_as_int64(x: u64) -> int {
    if x >= 0x8000_0000_0000_0000 {
        x - 0x1_0000_0000_0000_0000int
    } else {
        x as int
    }
}

/// The tag of field `field_number` with wire type `wire_type`, as written.
pub open spec fn tag_bytes(field_number: u32, wire_type: u8) -> Seq<u8> {
    varint((field_number * 8 + wire_type) as nat)
}

/// `128^k`.
pub open spec fn pow128(k: nat) -> nat
    decreases k,
{
    if k == 0 {
        1
    } else {
        128 * pow128((k - 1) as nat)
    }
}

/// The varint at position `i` of `bytes` onward, as `decode_varint` reads
/// it: seven bits per byte, least significant first, until a byte without
/// the continuation bit; the tenth byte may only carry bit 63 (it is `0` or
/// `1`), and bytes that run out first are an error. The value is the part
/// from position `i` on, already weighted by `128^i`, and the position after.
pub open spec fn varint_read_at(bytes: Seq<u8>, i: nat) -> Option<(nat, nat)>
    decreases 10 - i,
{
    if i >= 10 || i >= bytes.len() {
        None
    } else if i == 9 {
        if bytes[9] >= 2 {
            None
        } else {
            Some((bytes[9] as nat * pow128(9), 10))
        }
    } else if bytes[i as int] < 128 {
        Some((bytes[i as int] as nat * pow128(i), i + 1))
    } else {
        match varint_read_at(bytes, i + 1) {
            Some((v, n)) => Some((((bytes[i as int] - 128) as nat) * pow128(i) + v, n)),
            None => None,
        }
    }
}

/// What `buffa::encoding::decode_varint` reads from the front of `bytes`: the
/// value and the number of bytes it took, or `None` where it fails.
#[verifier::opaque]
pub open spec fn varint_read(bytes: Seq<u8>) -> Option<(u64, nat)> {
    match varint_read_at(bytes, 0) {
        Some((v, n)) => Some((v as u64, n)),
        None => None,
    }
}

/// What `buffa::encoding::Tag::decode` reads from the front of `bytes`: a
/// varint of at most 32 bits whose low three bits are a wire type up to `5`
/// and whose remaining bits, the field number, are not zero — the field
/// number, the wire type's number and the bytes taken, or `None`.
#[verifier::opaque]
pub open spec fn tag_read(bytes: Seq<u8>) -> Option<(u32, u8, nat)> {
    match varint_read(bytes) {
        Some((v, n)) => if v > 0xFFFF_FFFF || v % 8 > 5 || v / 8 == 0 {
            None
        } else {
            Some(((v / 8) as u32, (v % 8) as u8, n))
        },
        None => None,
    }
}

/// The varint of a value below `2 * 128^(9 - i)`, written at position `i`,
/// reads back as that value weighted by `128^i`, whatever follows it.
proof fn lemma_varint_read_at(v: nat, prefix: Seq<u8>, rest: Seq<u8>)
    requires
        prefix.len() <= 9,
        v < 2 * pow128((9 - prefix.len()) as nat),
    ensures
        varint_read_at(prefix + varint(v) + rest, prefix.len()) == Some(
            (v * pow128(prefix.len()), prefix.len() + varint(v).len()),
        ),
    decreases v,
{
    let i = prefix.len();
    let bytes = prefix + varint(v) + rest;
    assert(bytes[i as int] == varint(v)[0]);
    if v < 128 {
        if i == 9 {
            assert(pow128(0) == 1);
        }
    } else {
        let b = (v % 128 + 128) as u8;
        let p = pow128((9 - i) as nat);
        assert(i < 9) by {
            if i == 9 {
                assert(pow128(0) == 1);
            }
        }
        assert(pow128((9 - i) as nat) == 128 * pow128((9 - (i + 1)) as nat));
        assert(v / 128 < 2 * pow128((9 - (i + 1)) as nat)) by (nonlinear_arith)
            requires
                v < 2 * (128 * pow128((9 - (i + 1)) as nat)),
        ;
        let prefix2 = prefix.push(b);
        assert(prefix2 + varint(v / 128) + rest =~= bytes);
        lemma_varint_read_at(v / 128, prefix2, rest);
        let q = pow128(i);
        assert(pow128(i + 1) == 128 * q);
        assert((v % 128) * q + (v / 128) * (128 * q) == v * q) by (nonlinear_arith)
            requires
                v == 128 * (v / 128) + v % 128,
        ;
    }
}

/// A varint as `encode_varint` writes it reads back whatever follows it.
pub proof fn lemma_varint_read_back(v: nat, rest: Seq<u8>)
    requires
        v < 0x1_0000_0000_0000_0000,
    ensures
        varint_read(varint(v) + rest) == Some((v as u64, varint(v).len())),
{
    reveal(varint_read);
    reveal_with_fuel(pow128, 10);
    let empty = Seq::<u8>::empty();
    assert(empty + varint(v) + rest =~= varint(v) + rest);
    lemma_varint_read_at(v, empty, rest);
    assert(pow128(0) == 1);
    assert(v * 1 == v);
}

/// A tag as `Tag::encode` writes it reads back whatever follows it.
pub proof fn lemma_tag_read_back(field_number: u32, wire_type: u8, rest: Seq<u8>)
    requires
        1 <= field_number <= max_field_number(),
        wire_type <= 5,
    ensures
        tag_read(tag_bytes(field_number, wire_type) + rest) == Some(
            (field_number, wire_type, tag_bytes(field_number, wire_type).len()),
        ),
{
    reveal(tag_read);
    let v = (field_number * 8 + wire_type) as nat;
    lemma_varint_read_back(v, rest);
    assert(v % 8 == wire_type && v / 8 == field_number);
}

/// A field tag read off the wire: its number and its wire type's number, and
/// the decoder's own value of it, which skipping an unknown field takes back.
pub struct WireTag {
    field_number: u32,
    wire_type: u8,
    raw: Tag,
}

impl WireTag {
    pub closed spec fn spec_field_number(&self) -> u32 {
        self.field_number
    }

    pub closed spec fn spec_wire_type(&self) -> u8 {
        self.wire_type
    }

    /// Reads a field tag off the front of `buf`, as decoding does before
    /// each field: what [`tag_read`] gives, or the failure [`tag_fault`]
    /// names. The tag can then be handed to a `merge_field`.
    pub fn read(buf: &mut &[u8]) -> (r: Result<WireTag, WireError>)
        ensures
            match tag_read(old(buf)@) {
                Some((f, w, n)) => {
                    &&& r matches Ok(t) && t.spec_field_number() == f && t.spec_wire_type() == w
                    &&& final(buf)@ == old(buf)@.skip(n as int)
                },
                None => r matches Err(e) && e.failure() == tag_fault(old(buf)@),
            },
            is_tail(final(buf)@, old(buf)@),
    {
        read_tag(buf)
    }

    /// The field number.
    #[verifier::when_used_as_spec(spec_field_number)]
    pub fn field_number(&self) -> (r: u32)
        ensures
            r == self.spec_field_number(),
    {
        self.field_number
    }

    /// The wire type's number.
    #[verifier::when_used_as_spec(spec_wire_type)]
    pub fn wire_type(&self) -> (r: u8)
        ensures
            r == self.spec_wire_type(),
    {
        self.wire_type
    }
}

/// Wraps `buffa::encoding::encode_varint`: appends the varint encoding of
/// `v`, which `decode_varint` reads back whatever follows it.
#[verifier::external_body]
pub(crate) fn put_varint(out: &mut Vec<u8>, v: u64)
    ensures
        final(out)@ == old(out)@ + varint(v as nat),
{
    encode_varint(v, out)
}

/// Wraps `buffa::encoding::Tag::new` and `Tag::encode`: appends the tag of
/// field `field_number` with wire type `kind` — the varint of
/// `field_number << 3 | wire type` — which `Tag::decode` reads back whatever
/// follows it. `Tag::new` panics outside `1..=2^29 - 1`.
#[verifier::external_body]
pub(crate) fn put_tag(out: &mut Vec<u8>, field_number: u32, kind: WireKind)
    requires
        1 <= field_number <= max_field_number(),
    ensures
        final(out)@ == old(out)@ + tag_bytes(field_number, kind.code()),
{
    let wire_type = match kind {
        WireKind::Varint => WireType::Varint,
        WireKind::LengthDelimited => WireType::LengthDelimited,
    };
    Tag::new(field_number, wire_type).encode(out)
}

/// Wraps `buffa::types::encode_int32`: appends the varint of `v`
/// sign-extended to 64 bits, which `decode_varint` reads back as that
/// widened value whatever follows it.
#[verifier::external_body]
pub(crate) fn put_int32(out: &mut Vec<u8>, v: i32)
    ensures
        final(out)@ == old(out)@ + varint(int32_as_varint(v)),
{
    encode_int32(v, out)
}

/// Wraps `buffa::types::encode_int64`: appends the varint of `v` read as
/// unsigned, which `decode_varint` reads back whatever follows it.
#[verifier::external_body]
pub(crate) fn put_int64(out: &mut Vec<u8>, v: i64)
    ensures
        final(out)@ == old(out)@ + varint(int64_as_varint(v)),
{
    encode_int64(v, out)
}

/// Wraps `buffa::encoding::varint_len`: the length of `v`'s varint.
#[verifier::external_body]
pub(crate) fn varint_length(v: u64) -> (r: usize)
    ensures
        r == varint(v as nat).len(),
{
    varint_len(v)
}

/// Wraps `buffa::types::int32_encoded_len`: the length of the varint
/// `encode_int32` writes for `v`.
#[verifier::external_body]
pub(crate) fn int32_length(v: i32) -> (r: usize)
    ensures
        r == varint(int32_as_varint(v)).len(),
{
    int32_encoded_len(v)
}

/// Wraps `buffa::types::int64_encoded_len`: the length of the varint
/// `encode_int64` writes for `v`.
#[verifier::external_body]
pub(crate) fn int64_length(v: i64) -> (r: usize)
    ensures
        r == varint(int64_as_varint(v)).len(),
{
    int64_encoded_len(v)
}

/// Wraps `buffa::encoding::decode_varint`: reads a varint off the front of
/// `buf`, taking at least one byte; a failure is `UnexpectedEof` or
/// `VarintTooLong`, as [`varint_fault`] says. How many bytes a failure took
/// first is left unsaid; what is left is a tail.
#[verifier::external_body]
pub(crate) fn read_varint(buf: &mut &[u8]) -> (r: Result<u64, WireError>)
    ensures
        match varint_read(old(buf)@) {
            Some((v, n)) => {
                &&& r matches Ok(x) && x == v
                &&& 1 <= n <= old(buf)@.len()
                &&& final(buf)@ == old(buf)@.skip(n as int)
            },
            None => r matches Err(e) && e.failure() == varint_fault(old(buf)@),
        },
        is_tail(final(buf)@, old(buf)@),
{
    match decode_varint(buf) {
        Ok(v) => Ok(v),
        Err(DecodeError::UnexpectedEof) => Err(WireError::UnexpectedEof),
        Err(DecodeError::VarintTooLong) => Err(WireError::VarintTooLong),
        Err(e) => Err(WireError::Malformed(e)),
    }
}

/// Wraps `buffa::types::decode_int32`: a varint read off the front of `buf`,
/// truncated to its low 32 bits; failures as [`read_varint`]'s.
#[verifier::external_body]
pub(crate) fn read_int32(buf: &mut &[u8]) -> (r: Result<i32, WireError>)
    ensures
        match varint_read(old(buf)@) {
            Some((v, n)) => {
                &&& r matches Ok(x) && x == varint_as_int32(v)
                &&& 1 <= n <= old(buf)@.len()
                &&& final(buf)@ == old(buf)@.skip(n as int)
            },
            None => r matches Err(e) && e.failure() == varint_fault(old(buf)@),
        },
        is_tail(final(buf)@, old(buf)@),
{
    match decode_int32(buf) {
        Ok(v) => Ok(v),
        Err(DecodeError::UnexpectedEof) => Err(WireError::UnexpectedEof),
        Err(DecodeError::VarintTooLong) => Err(WireError::VarintTooLong),
        Err(e) => Err(WireError::Malformed(e)),
    }
}

/// Wraps `buffa::types::decode_int64`: a varint read off the front of `buf`
/// as an `i64`; failures as [`read_varint`]'s.
#[verifier::external_body]
pub(crate) fn read_int64(buf: &mut &[u8]) -> (r: Result<i64, WireError>)
    ensures
        match varint_read(old(buf)@) {
            Some((v, n)) => {
                &&& r matches Ok(x) && x == varint_as_int64(v)
                &&& 1 <= n <= old(buf)@.len()
                &&& final(buf)@ == old(buf)@.skip(n as int)
            },
            None => r matches Err(e) && e.failure() == varint_fault(old(buf)@),
        },
        is_tail(final(buf)@, old(buf)@),
{
    match decode_int64(buf) {
        Ok(v) => Ok(v),
        Err(DecodeError::UnexpectedEof) => Err(WireError::UnexpectedEof),
        Err(DecodeError::VarintTooLong) => Err(WireError::VarintTooLong),
        Err(e) => Err(WireError::Malformed(e)),
    }
}

/// Wraps `buffa::encoding::Tag::decode`: reads a field tag off the front of
/// `buf`, taking at least one byte, and hands back its field number and
/// wire type's number; a failure is as [`tag_fault`] says.
#[verifier::external_body]
pub(crate) fn read_tag(buf: &mut &[u8]) -> (r: Result<WireTag, WireError>)
    ensures
        match tag_read(old(buf)@) {
            Some((f, w, n)) => {
                &&& r matches Ok(t) && t.spec_field_number() == f && t.spec_wire_type() == w
                &&& 1 <= n <= old(buf)@.len()
                &&& final(buf)@ == old(buf)@.skip(n as int)
            },
            None => r matches Err(e) && e.failure() == tag_fault(old(buf)@),
        },
        is_tail(final(buf)@, old(buf)@),
{
    match Tag::decode(buf) {
        Ok(raw) => Ok(WireTag { field_number: raw.field_number(), wire_type: raw.wire_type() as u8, raw }),
        Err(DecodeError::UnexpectedEof) => Err(WireError::UnexpectedEof),
        Err(DecodeError::VarintTooLong) => Err(WireError::VarintTooLong),
        Err(DecodeError::InvalidWireType(w)) => Err(WireError::InvalidWireType(w)),
        Err(DecodeError::InvalidFieldNumber) => Err(WireError::InvalidFieldNumber),
        Err(e) => Err(WireError::Malformed(e)),
    }
}

/// Wraps `buffa::encoding::skip_field_depth`: steps over the value of a field
/// this crate does not know, groups nested at most `depth` deep, as
/// [`field_skipped`] says.
#[verifier::external_body]
pub(crate) fn skip_field(tag: &WireTag, buf: &mut &[u8], depth: u32) -> (r: Result<(), WireError>)
    ensures
        match field_skipped(tag.spec_field_number(), tag.spec_wire_type(), old(buf)@, depth) {
            Ok(n) => r is Ok && final(buf)@ == old(buf)@.skip(n as int),
            Err(f) => r matches Err(e) && e.failure() == f,
        },
        is_tail(final(buf)@, old(buf)@),
{
    match skip_field_depth(tag.raw, buf, depth) {
        Ok(()) => Ok(()),
        Err(DecodeError::UnexpectedEof) => Err(WireError::UnexpectedEof),
        Err(DecodeError::VarintTooLong) => Err(WireError::VarintTooLong),
        Err(DecodeError::InvalidWireType(w)) => Err(WireError::InvalidWireType(w)),
        Err(DecodeError::InvalidFieldNumber) => Err(WireError::InvalidFieldNumber),
        Err(DecodeError::MessageTooLarge) => Err(WireError::MessageTooLarge),
        Err(DecodeError::RecursionLimitExceeded) => Err(WireError::RecursionLimitExceeded),
        Err(DecodeError::InvalidEndGroup(f)) => Err(WireError::InvalidEndGroup(f)),
        Err(e) => Err(WireError::Malformed(e)),
    }
}

} // verus!

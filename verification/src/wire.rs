//! The protobuf wire format of [`Timebase`], [`TimeRange`] and [`Timestamp`]:
//!
//! ```text
//! Timebase  { int32 num = 1;   int32 den = 2; }
//! TimeRange { int64 start = 1; int64 end = 2; Timebase timebase = 3; }
//! Timestamp { int64 pts = 1;   Timebase timebase = 2; }
//! ```
//!
//! A `Timebase` writes both of its fields always and a nested `Timebase` is
//! always written, because decoding starts from the `1/1` default rather than
//! from protobuf's zero: eliding a zero numerator would read back as one. The
//! `int64` counts are elided at zero, which is where decoding starts them.
//! What `write_to` writes, decoding reads back — each writer's contract says
//! so over the decoder's own specification.
//!
//! Decoding is total on what the wire can carry: a numerator below zero reads
//! as zero and a denominator that is not positive reads as one, rather than
//! minting a value the constructors refuse. Fields this crate does not know
//! are skipped, and a known field in the wrong wire type is an error.

use crate::model::{Interval, Rational, Ticks};
use crate::time_range::TimeRange;
use crate::timebase::Timebase;
use crate::timestamp::Timestamp;
use crate::varint::{
    field_skipped, int32_as_varint, lemma_skipping_stays_within, tag_fault, varint_fault, lemma_tag_read_back, lemma_varint_read_back, max_field_number,
    pow128, is_tail, lemma_tail_of_itself, lemma_tail_of_tail, int32_length, int64_as_varint, int64_length, put_int32,
    put_int64, put_tag, put_varint, read_int32, read_int64, read_tag, read_varint, skip_field,
    tag_bytes, tag_read, varint, varint_as_int32, varint_as_int64, varint_length, varint_read,
    WireKind, WireTag, LEN, VARINT,
};
use buffa::DecodeError;
use vstd::prelude::*;

verus! {

/// How deep nested messages and groups may go: buffa's `RECURSION_LIMIT`.
pub const RECURSION_LIMIT: u32 = 100;

/// The longest length a nested message may declare: protobuf's 2 GiB bound.
pub const MAX_MESSAGE_BYTES: u64 = 0x7FFF_FFFF;

/// Why bytes did not decode as a message: the errors of buffa's decoder
/// that these messages can meet, by the same names.
#[derive(Debug, PartialEq, Eq)]
pub enum WireError {
    /// A field this crate knows arrived in another wire type than its own.
    WireTypeMismatch { field_number: u32, expected: u8, actual: u8 },
    /// The bytes ran out inside a value, or a nested message ran past the
    /// bytes it declared.
    UnexpectedEof,
    /// A varint's tenth byte carried more than bit 63.
    VarintTooLong,
    /// A tag named a wire type protobuf does not have, or a closing group
    /// tag stood on its own.
    InvalidWireType(u32),
    /// A tag's field number was zero, or its varint went past 32 bits.
    InvalidFieldNumber,
    /// A nested message declared a length past protobuf's 2 GiB bound, or a
    /// skipped field one past what the machine can address.
    MessageTooLarge,
    /// Nesting went deeper than [`RECURSION_LIMIT`].
    RecursionLimitExceeded,
    /// A skipped group closed with another field number than it opened.
    InvalidEndGroup(u32),
    /// Any other error of the decoder, carried as it came.
    Malformed(DecodeError),
}

/// The kind of a [`WireError`], which is what the decoding contracts state.
pub enum DecodeFailure {
    WireTypeMismatch(u32, u8, u8),
    UnexpectedEof,
    VarintTooLong,
    InvalidWireType(u32),
    InvalidFieldNumber,
    MessageTooLarge,
    RecursionLimitExceeded,
    InvalidEndGroup(u32),
    Malformed,
}

impl WireError {
    /// The kind of this error.
    pub open spec fn failure(self) -> DecodeFailure {
        match self {
            WireError::WireTypeMismatch { field_number, expected, actual } => {
                DecodeFailure::WireTypeMismatch(field_number, expected, actual)
            },
            WireError::UnexpectedEof => DecodeFailure::UnexpectedEof,
            WireError::VarintTooLong => DecodeFailure::VarintTooLong,
            WireError::InvalidWireType(w) => DecodeFailure::InvalidWireType(w),
            WireError::InvalidFieldNumber => DecodeFailure::InvalidFieldNumber,
            WireError::MessageTooLarge => DecodeFailure::MessageTooLarge,
            WireError::RecursionLimitExceeded => DecodeFailure::RecursionLimitExceeded,
            WireError::InvalidEndGroup(f) => DecodeFailure::InvalidEndGroup(f),
            WireError::Malformed(_) => DecodeFailure::Malformed,
        }
    }
}

/// The bytes a [`Timebase`] is written as.
pub open spec fn timebase_bytes(tb: Rational) -> Seq<u8> {
    tag_bytes(1, VARINT) + varint(int32_as_varint(tb.num as i32)) + tag_bytes(2, VARINT) + varint(
        int32_as_varint(tb.den as i32),
    )
}

/// The largest of `x` and zero.
pub open spec fn at_least_zero(x: int) -> int {
    if x > 0 {
        x
    } else {
        0
    }
}

/// `x` where it is positive, else one.
pub open spec fn positive_or_one(x: int) -> int {
    if x > 0 {
        x
    } else {
        1
    }
}

/// One field of a `Timebase` message — tag `(field_number, wire_type)`, its
/// value at the front of `bytes` — merged into `tb`: the new value and the
/// bytes after the field.
pub open spec fn timebase_field(
    tb: Rational,
    field_number: u32,
    wire_type: u8,
    bytes: Seq<u8>,
    depth: u32,
) -> Result<(Rational, Seq<u8>), DecodeFailure> {
    if field_number == 1 {
        if wire_type != VARINT {
            Err(DecodeFailure::WireTypeMismatch(1, VARINT, wire_type))
        } else {
            match varint_read(bytes) {
                Some((v, n)) => Ok(
                    (
                        Rational { num: at_least_zero(varint_as_int32(v)), den: tb.den },
                        bytes.skip(n as int),
                    ),
                ),
                None => Err(varint_fault(bytes)),
            }
        }
    } else if field_number == 2 {
        if wire_type != VARINT {
            Err(DecodeFailure::WireTypeMismatch(2, VARINT, wire_type))
        } else {
            match varint_read(bytes) {
                Some((v, n)) => Ok(
                    (
                        Rational { num: tb.num, den: positive_or_one(varint_as_int32(v)) },
                        bytes.skip(n as int),
                    ),
                ),
                None => Err(varint_fault(bytes)),
            }
        }
    } else {
        match field_skipped(field_number, wire_type, bytes, depth) {
            Ok(n) => Ok((tb, bytes.skip(n as int))),
            Err(e) => Err(e),
        }
    }
}

/// The fields at the front of `bytes` merged into `tb` one by one, until no
/// more than `limit` bytes are left: the value and the bytes left.
pub open spec fn timebase_merge(tb: Rational, bytes: Seq<u8>, limit: nat, depth: u32) -> Result<
    (Rational, Seq<u8>),
    DecodeFailure,
>
    decreases bytes.len(),
{
    if bytes.len() <= limit {
        Ok((tb, bytes))
    } else {
        match tag_read(bytes) {
            None => Err(tag_fault(bytes)),
            Some((f, w, n)) => {
                if 1 <= n <= bytes.len() {
                    match timebase_field(tb, f, w, bytes.skip(n as int), depth) {
                        Ok((next, rest)) => {
                            if rest.len() < bytes.len() {
                                timebase_merge(next, rest, limit, depth)
                            } else {
                                Err(DecodeFailure::Malformed)
                            }
                        },
                        Err(e) => Err(e),
                    }
                } else {
                    Err(DecodeFailure::Malformed)
                }
            },
        }
    }
}

/// A length-delimited `Timebase` at the front of `bytes` merged into `tb`,
/// one level of nesting below `depth`: the value and the bytes after it.
pub open spec fn timebase_nested(tb: Rational, bytes: Seq<u8>, depth: u32) -> Result<
    (Rational, Seq<u8>),
    DecodeFailure,
> {
    if depth == 0 {
        Err(DecodeFailure::RecursionLimitExceeded)
    } else {
        match varint_read(bytes) {
            None => Err(varint_fault(bytes)),
            Some((len, n)) => {
                let body = bytes.skip(n as int);
                if len > MAX_MESSAGE_BYTES {
                    Err(DecodeFailure::MessageTooLarge)
                } else if body.len() < len {
                    Err(DecodeFailure::UnexpectedEof)
                } else {
                    let limit = (body.len() - len) as nat;
                    match timebase_merge(tb, body, limit, (depth - 1) as u32) {
                        Ok((next, rest)) => {
                            if rest.len() < limit {
                                Err(DecodeFailure::UnexpectedEof)
                            } else {
                                Ok((next, rest))
                            }
                        },
                        Err(e) => Err(e),
                    }
                }
            },
        }
    }
}

/// What a whole buffer decodes to as a `Timebase`.
pub open spec fn timebase_decoded(bytes: Seq<u8>) -> Result<Rational, DecodeFailure> {
    match timebase_merge(Rational { num: 1, den: 1 }, bytes, 0, RECURSION_LIMIT) {
        Ok((tb, _)) => Ok(tb),
        Err(e) => Err(e),
    }
}

/// A varint takes at least one byte, and at most `k` for a value below
/// `128^k`.
pub proof fn lemma_varint_len(v: nat, k: nat)
    requires
        k >= 1,
        v < pow128(k),
    ensures
        1 <= varint(v).len() <= k,
    decreases k,
{
    if v >= 128 {
        let p = pow128((k - 1) as nat);
        assert(v / 128 < p) by (nonlinear_arith)
            requires
                v < 128 * p,
                v >= 128,
        ;
        assert(k >= 2) by {
            if k == 1 {
                assert(pow128(1) == 128 * pow128(0));
            }
        }
        lemma_varint_len(v / 128, (k - 1) as nat);
    }
}

/// An `int32`'s varint takes between one and ten bytes, and at most five for
/// a value that is not negative.
pub proof fn lemma_int32_varint_len(v: i32)
    ensures
        1 <= varint(int32_as_varint(v)).len() <= 10,
        v >= 0 ==> varint(int32_as_varint(v)).len() <= 5,
{
    reveal_with_fuel(pow128, 11);
    if v >= 0 {
        lemma_varint_len(int32_as_varint(v), 5);
    } else {
        lemma_varint_len(int32_as_varint(v), 10);
    }
}

/// An `int64`'s varint takes between one and ten bytes.
pub proof fn lemma_int64_varint_len(v: i64)
    ensures
        1 <= varint(int64_as_varint(v)).len() <= 10,
{
    reveal_with_fuel(pow128, 11);
    lemma_varint_len(int64_as_varint(v), 10);
}

/// A tag with a field number below 16 is one byte.
pub proof fn lemma_small_tag(field_number: u32, wire_type: u8)
    requires
        field_number < 16,
        wire_type < 8,
    ensures
        tag_bytes(field_number, wire_type) == seq![(field_number * 8 + wire_type) as u8],
{
}

/// Widening a non-negative `int32` and truncating it back gives it back.
pub proof fn lemma_int32_round_trip(v: i32)
    requires
        v >= 0,
    ensures
        varint_as_int32(int32_as_varint(v) as u64) == v,
{
}

/// Reading an `int64` back from its unsigned form gives it back.
pub proof fn lemma_int64_round_trip(v: i64)
    ensures
        varint_as_int64(int64_as_varint(v) as u64) == v,
{
}

impl Timebase {
    /// The value decoding starts from, the `1/1` default.
    pub fn default_instance() -> (r: Self)
        ensures
            r@ == (Rational { num: 1, den: 1 }),
    {
        Timebase::default()
    }

    /// Resets to the `1/1` default.
    pub fn clear(&mut self)
        ensures
            final(self)@ == (Rational { num: 1, den: 1 }),
    {
        *self = Timebase::default();
    }

    /// How many bytes [`Self::write_to`] writes.
    pub fn compute_size(&self) -> (r: u32)
        ensures
            r == timebase_bytes(self@).len(),
    {
        let num = self.num();
        let den = self.den();
        proof {
            lemma_int32_varint_len(num);
            lemma_int32_varint_len(den);
            lemma_small_tag(1, VARINT);
            lemma_small_tag(2, VARINT);
        }
        let n = int32_length(num);
        let d = int32_length(den);
        (2 + n + d) as u32
    }

    /// Appends the message: both fields, always — decoding starts from
    /// `1/1`, so neither can be left out. Whatever follows, decoding reads
    /// the value back from any starting value.
    pub fn write_to(&self, out: &mut Vec<u8>)
        ensures
            final(out)@ == old(out)@ + timebase_bytes(self@),
            forall|start: Rational, rest: Seq<u8>, depth: u32|
                #[trigger] timebase_merge(
                    start,
                    final(out)@.skip(old(out)@.len() as int) + rest,
                    rest.len(),
                    depth,
                ) == Ok::<(Rational, Seq<u8>), DecodeFailure>((self@, rest)),
    {
        let num = self.num();
        let den = self.den();
        let ghost o0 = out@;
        put_tag(out, 1, WireKind::Varint);
        let ghost o1 = out@;
        put_int32(out, num);
        let ghost o2 = out@;
        put_tag(out, 2, WireKind::Varint);
        let ghost o3 = out@;
        put_int32(out, den);
        let ghost o4 = out@;
        proof {
            let t1 = tag_bytes(1, VARINT);
            let v1 = varint(int32_as_varint(num));
            let t2 = tag_bytes(2, VARINT);
            let v2 = varint(int32_as_varint(den));
            assert(o1.skip(o0.len() as int) =~= t1);
            assert(o2.skip(o1.len() as int) =~= v1);
            assert(o3.skip(o2.len() as int) =~= t2);
            assert(o4.skip(o3.len() as int) =~= v2);
            assert(o4.skip(o0.len() as int) =~= timebase_bytes(self@));
            lemma_int32_varint_len(num);
            lemma_int32_varint_len(den);
            lemma_int32_round_trip(num);
            lemma_int32_round_trip(den);
            assert forall|start: Rational, rest: Seq<u8>, depth: u32|
                #[trigger] timebase_merge(start, o4.skip(o0.len() as int) + rest, rest.len(), depth)
                    == Ok::<(Rational, Seq<u8>), DecodeFailure>((self@, rest)) by {
                let all = o4.skip(o0.len() as int) + rest;
                let after_t1 = v1 + t2 + v2 + rest;
                let after_v1 = t2 + v2 + rest;
                let after_t2 = v2 + rest;
                assert(all =~= t1 + after_t1);
                assert(o1.skip(o0.len() as int) + after_t1 == all);
                lemma_tag_read_back(1, VARINT, after_t1);
                assert(tag_read(all) == Some((1u32, VARINT, t1.len())));
                assert(all.skip(t1.len() as int) =~= after_t1);
                assert(after_t1 =~= v1 + after_v1);
                assert(o2.skip(o1.len() as int) + after_v1 == after_t1);
                assert(after_t1.skip(v1.len() as int) =~= after_v1);
                lemma_varint_read_back(int32_as_varint(num), after_v1);
                let mid = Rational { num: num as int, den: start.den };
                assert(timebase_field(start, 1, VARINT, after_t1, depth) == Ok::<
                    (Rational, Seq<u8>),
                    DecodeFailure,
                >((mid, after_v1)));
                assert(o3.skip(o2.len() as int) + after_t2 == after_v1);
                assert(after_v1.skip(t2.len() as int) =~= after_t2);
                lemma_tag_read_back(2, VARINT, after_t2);
                assert(tag_read(after_v1) == Some((2u32, VARINT, t2.len())));
                assert(o4.skip(o3.len() as int) + rest == after_t2);
                assert(after_t2.skip(v2.len() as int) =~= rest);
                lemma_varint_read_back(int32_as_varint(den), rest);
                assert(timebase_field(mid, 2, VARINT, after_t2, depth) == Ok::<
                    (Rational, Seq<u8>),
                    DecodeFailure,
                >((self@, rest)));
                assert(timebase_merge(self@, rest, rest.len(), depth) == Ok::<
                    (Rational, Seq<u8>),
                    DecodeFailure,
                >((self@, rest)));
                assert(timebase_merge(mid, after_v1, rest.len(), depth) == Ok::<
                    (Rational, Seq<u8>),
                    DecodeFailure,
                >((self@, rest)));
            }
        }
    }

    /// The message as a new buffer, which [`Self::decode_from_slice`] reads
    /// back as this value. Bytes appended to it are merged into that value as
    /// further fields, so unknown fields after it leave it as it is.
    pub fn encode_to_vec(&self) -> (r: Vec<u8>)
        ensures
            r@ == timebase_bytes(self@),
            timebase_decoded(r@) == Ok::<Rational, DecodeFailure>(self@),
            forall|more: Seq<u8>|
                #[trigger] timebase_decoded(r@ + more) == match timebase_merge(self@, more, 0, RECURSION_LIMIT) {
                    Ok((v, _)) => Ok::<Rational, DecodeFailure>(v),
                    Err(e) => Err(e),
                },
    {
        let mut out: Vec<u8> = Vec::new();
        self.write_to(&mut out);
        proof {
            assert(out@.skip(0) + Seq::<u8>::empty() =~= out@);
            assert forall|more: Seq<u8>|
                #[trigger] timebase_decoded(out@ + more) == match timebase_merge(self@, more, 0, RECURSION_LIMIT) {
                    Ok((v, _)) => Ok::<Rational, DecodeFailure>(v),
                    Err(e) => Err(e),
                } by {
                assert(out@.skip(0) + more =~= out@ + more);
                assert(timebase_merge(Rational { num: 1, den: 1 }, out@ + more, more.len(), RECURSION_LIMIT) == Ok::<
                    (Rational, Seq<u8>),
                    DecodeFailure,
                >((self@, more)));
                lemma_timebase_merge_continues(
                    Rational { num: 1, den: 1 },
                    out@ + more,
                    more.len(),
                    0,
                    RECURSION_LIMIT,
                    self@,
                    more,
                );
            }
        }
        out
    }

    /// Merges one field, whose tag has been read, from the front of `buf`:
    /// field 1 sets the numerator (a negative one reads as zero), field 2 the
    /// denominator (one that is not positive reads as one), and any other
    /// field is skipped.
    pub fn merge_field(&mut self, tag: &WireTag, buf: &mut &[u8], depth: u32) -> (r: Result<
        (),
        WireError,
    >)
        ensures
            match timebase_field(
                old(self)@,
                tag.spec_field_number(),
                tag.spec_wire_type(),
                old(buf)@,
                depth,
            ) {
                Ok((tb, rest)) => {
                    &&& r is Ok
                    &&& final(self)@ == tb
                    &&& final(buf)@ == rest
                    &&& rest.len() <= old(buf)@.len()
                },
                Err(e) => {
                    &&& r matches Err(x) && x.failure() == e
                    &&& *final(self) == *old(self)
                    &&& (tag.spec_field_number() == 1 || tag.spec_field_number() == 2) && tag.spec_wire_type()
                        != VARINT ==> final(buf)@ == old(buf)@
                },
            },
            is_tail(final(buf)@, old(buf)@),
    {
        proof {
            lemma_tail_of_itself(buf@);
        }
        let field_number = tag.field_number();
        let wire_type = tag.wire_type();
        if field_number == 1 {
            if wire_type != VARINT {
                return Err(
                    WireError::WireTypeMismatch { field_number: 1, expected: VARINT, actual: wire_type },
                );
            }
            let num = match read_int32(buf) {
                Ok(v) => v,
                Err(e) => return Err(e),
            };
            let num = if num > 0 {
                num
            } else {
                0
            };
            *self = Timebase::new(num, self.den());
        } else if field_number == 2 {
            if wire_type != VARINT {
                return Err(
                    WireError::WireTypeMismatch { field_number: 2, expected: VARINT, actual: wire_type },
                );
            }
            let den = match read_int32(buf) {
                Ok(v) => v,
                Err(e) => return Err(e),
            };
            let den = if den > 0 {
                den
            } else {
                1
            };
            *self = Timebase::new(self.num(), den);
        } else {
            proof {
                lemma_skipping_stays_within(field_number, wire_type, buf@, depth);
            }
            match skip_field(tag, buf, depth) {
                Ok(()) => {},
                Err(e) => return Err(e),
            }
        }
        Ok(())
    }

    /// Merges fields from the front of `buf` until no more than `limit` bytes
    /// are left.
    pub fn merge_to_limit(&mut self, buf: &mut &[u8], limit: usize, depth: u32) -> (r: Result<
        (),
        WireError,
    >)
        ensures
            match timebase_merge(old(self)@, old(buf)@, limit as nat, depth) {
                Ok((tb, rest)) => r is Ok && final(self)@ == tb && final(buf)@ == rest,
                Err(e) => r matches Err(x) && x.failure() == e,
            },
            r is Ok ==> final(buf)@.len() <= old(buf)@.len(),
            is_tail(final(buf)@, old(buf)@),
    {
        let ghost goal = timebase_merge(self@, buf@, limit as nat, depth);
        proof {
            lemma_tail_of_itself(buf@);
        }
        while buf.len() > limit
            invariant
                is_tail(buf@, old(buf)@),
                timebase_merge(self@, buf@, limit as nat, depth) == goal,
                goal == timebase_merge(old(self)@, old(buf)@, limit as nat, depth),
                buf@.len() <= old(buf)@.len(),
            decreases buf@.len(),
        {
            let ghost before = buf@;
            let tag_read = read_tag(buf);
            proof {
                lemma_tail_of_tail(buf@, before, old(buf)@);
            }
            let tag = match tag_read {
                Ok(t) => t,
                Err(e) => return Err(e),
            };
            let ghost after_tag = buf@;
            let merged = self.merge_field(&tag, buf, depth);
            proof {
                lemma_tail_of_tail(buf@, after_tag, old(buf)@);
            }
            match merged {
                Ok(()) => {},
                Err(e) => return Err(e),
            }
            proof {
                assert(buf@.len() < before.len());
            }
        }
        Ok(())
    }

    /// Merges a length-delimited message from the front of `buf`: its
    /// varint length, then its fields, one nesting level below `depth`.
    pub fn merge_length_delimited(&mut self, buf: &mut &[u8], depth: u32) -> (r: Result<
        (),
        WireError,
    >)
        ensures
            match timebase_nested(old(self)@, old(buf)@, depth) {
                Ok((tb, rest)) => r is Ok && final(self)@ == tb && final(buf)@ == rest,
                Err(e) => r matches Err(x) && x.failure() == e,
            },
            r is Ok ==> final(buf)@.len() <= old(buf)@.len(),
            is_tail(final(buf)@, old(buf)@),
    {
        proof {
            lemma_tail_of_itself(buf@);
        }
        if depth == 0 {
            return Err(WireError::RecursionLimitExceeded);
        }
        let len_read = read_varint(buf);
        let ghost after_len = buf@;
        let len = match len_read {
            Ok(v) => v,
            Err(e) => return Err(e),
        };
        if len > MAX_MESSAGE_BYTES {
            return Err(WireError::MessageTooLarge);
        }
        let len = len as usize;
        if buf.len() < len {
            return Err(WireError::UnexpectedEof);
        }
        let limit = buf.len() - len;
        let merged = self.merge_to_limit(buf, limit, depth - 1);
        proof {
            lemma_tail_of_tail(buf@, after_len, old(buf)@);
        }
        match merged {
            Ok(()) => {},
            Err(e) => return Err(e),
        }
        if buf.len() < limit {
            return Err(WireError::UnexpectedEof);
        }
        Ok(())
    }

    /// Decodes a whole buffer as a `Timebase`, starting from `1/1`.
    pub fn decode_from_slice(bytes: &[u8]) -> (r: Result<Self, WireError>)
        ensures
            match timebase_decoded(bytes@) {
                Ok(tb) => r matches Ok(x) && x@ == tb,
                Err(e) => r matches Err(x) && x.failure() == e,
            },
    {
        let mut tb = Timebase::default();
        let mut buf = bytes;
        match tb.merge_to_limit(&mut buf, 0, RECURSION_LIMIT) {
            Ok(()) => Ok(tb),
            Err(e) => Err(e),
        }
    }
}


/// The bytes a [`TimeRange`] is written as: each endpoint only where it is
/// not zero, then the timebase, always, as a nested message.
pub open spec fn range_bytes(r: Interval) -> Seq<u8> {
    (if r.start != 0 {
        tag_bytes(1, VARINT) + varint(int64_as_varint(r.start as i64))
    } else {
        Seq::empty()
    }) + (if r.end != 0 {
        tag_bytes(2, VARINT) + varint(int64_as_varint(r.end as i64))
    } else {
        Seq::empty()
    }) + tag_bytes(3, LEN) + varint(timebase_bytes(r.tb).len()) + timebase_bytes(r.tb)
}

/// One field of a `TimeRange` message merged into `r`: fields 1 and 2 set
/// the endpoints, as written — a decoded range may run backwards — field 3
/// merges the nested timebase, and any other field is skipped.
pub open spec fn range_field(
    r: Interval,
    field_number: u32,
    wire_type: u8,
    bytes: Seq<u8>,
    depth: u32,
) -> Result<(Interval, Seq<u8>), DecodeFailure> {
    if field_number == 1 {
        if wire_type != VARINT {
            Err(DecodeFailure::WireTypeMismatch(1, VARINT, wire_type))
        } else {
            match varint_read(bytes) {
                Some((v, n)) => Ok(
                    (Interval { start: varint_as_int64(v), ..r }, bytes.skip(n as int)),
                ),
                None => Err(varint_fault(bytes)),
            }
        }
    } else if field_number == 2 {
        if wire_type != VARINT {
            Err(DecodeFailure::WireTypeMismatch(2, VARINT, wire_type))
        } else {
            match varint_read(bytes) {
                Some((v, n)) => Ok(
                    (Interval { end: varint_as_int64(v), ..r }, bytes.skip(n as int)),
                ),
                None => Err(varint_fault(bytes)),
            }
        }
    } else if field_number == 3 {
        if wire_type != LEN {
            Err(DecodeFailure::WireTypeMismatch(3, LEN, wire_type))
        } else {
            match timebase_nested(r.tb, bytes, depth) {
                Ok((tb, rest)) => Ok((Interval { tb, ..r }, rest)),
                Err(e) => Err(e),
            }
        }
    } else {
        match field_skipped(field_number, wire_type, bytes, depth) {
            Ok(n) => Ok((r, bytes.skip(n as int))),
            Err(e) => Err(e),
        }
    }
}

/// The fields at the front of `bytes` merged into `r` until no more than
/// `limit` bytes are left.
pub open spec fn range_merge(r: Interval, bytes: Seq<u8>, limit: nat, depth: u32) -> Result<
    (Interval, Seq<u8>),
    DecodeFailure,
>
    decreases bytes.len(),
{
    if bytes.len() <= limit {
        Ok((r, bytes))
    } else {
        match tag_read(bytes) {
            None => Err(tag_fault(bytes)),
            Some((f, w, n)) => {
                if 1 <= n <= bytes.len() {
                    match range_field(r, f, w, bytes.skip(n as int), depth) {
                        Ok((next, rest)) => {
                            if rest.len() < bytes.len() {
                                range_merge(next, rest, limit, depth)
                            } else {
                                Err(DecodeFailure::Malformed)
                            }
                        },
                        Err(e) => Err(e),
                    }
                } else {
                    Err(DecodeFailure::Malformed)
                }
            },
        }
    }
}

/// The range decoding starts from: `[0, 0)` over `1/1`.
pub open spec fn empty_range() -> Interval {
    Interval { start: 0, end: 0, tb: Rational { num: 1, den: 1 } }
}

/// What a whole buffer decodes to as a `TimeRange`.
pub open spec fn range_decoded(bytes: Seq<u8>) -> Result<Interval, DecodeFailure> {
    match range_merge(empty_range(), bytes, 0, RECURSION_LIMIT) {
        Ok((r, _)) => Ok(r),
        Err(e) => Err(e),
    }
}

/// The bytes a [`Timestamp`] is written as: the PTS only where it is not
/// zero, then the timebase, always, as a nested message.
pub open spec fn stamp_bytes(t: Ticks) -> Seq<u8> {
    (if t.count != 0 {
        tag_bytes(1, VARINT) + varint(int64_as_varint(t.count as i64))
    } else {
        Seq::empty()
    }) + tag_bytes(2, LEN) + varint(timebase_bytes(t.tb).len()) + timebase_bytes(t.tb)
}

/// One field of a `Timestamp` message merged into `t`: field 1 sets the PTS,
/// field 2 merges the nested timebase, and any other field is skipped.
pub open spec fn stamp_field(
    t: Ticks,
    field_number: u32,
    wire_type: u8,
    bytes: Seq<u8>,
    depth: u32,
) -> Result<(Ticks, Seq<u8>), DecodeFailure> {
    if field_number == 1 {
        if wire_type != VARINT {
            Err(DecodeFailure::WireTypeMismatch(1, VARINT, wire_type))
        } else {
            match varint_read(bytes) {
                Some((v, n)) => Ok(
                    (Ticks { count: varint_as_int64(v), tb: t.tb }, bytes.skip(n as int)),
                ),
                None => Err(varint_fault(bytes)),
            }
        }
    } else if field_number == 2 {
        if wire_type != LEN {
            Err(DecodeFailure::WireTypeMismatch(2, LEN, wire_type))
        } else {
            match timebase_nested(t.tb, bytes, depth) {
                Ok((tb, rest)) => Ok((Ticks { count: t.count, tb }, rest)),
                Err(e) => Err(e),
            }
        }
    } else {
        match field_skipped(field_number, wire_type, bytes, depth) {
            Ok(n) => Ok((t, bytes.skip(n as int))),
            Err(e) => Err(e),
        }
    }
}

/// The fields at the front of `bytes` merged into `t` until no more than
/// `limit` bytes are left.
pub open spec fn stamp_merge(t: Ticks, bytes: Seq<u8>, limit: nat, depth: u32) -> Result<
    (Ticks, Seq<u8>),
    DecodeFailure,
>
    decreases bytes.len(),
{
    if bytes.len() <= limit {
        Ok((t, bytes))
    } else {
        match tag_read(bytes) {
            None => Err(tag_fault(bytes)),
            Some((f, w, n)) => {
                if 1 <= n <= bytes.len() {
                    match stamp_field(t, f, w, bytes.skip(n as int), depth) {
                        Ok((next, rest)) => {
                            if rest.len() < bytes.len() {
                                stamp_merge(next, rest, limit, depth)
                            } else {
                                Err(DecodeFailure::Malformed)
                            }
                        },
                        Err(e) => Err(e),
                    }
                } else {
                    Err(DecodeFailure::Malformed)
                }
            },
        }
    }
}

/// The timestamp decoding starts from: PTS zero over `1/1`.
pub open spec fn zero_stamp() -> Ticks {
    Ticks { count: 0, tb: Rational { num: 1, den: 1 } }
}

/// What a whole buffer decodes to as a `Timestamp`.
pub open spec fn stamp_decoded(bytes: Seq<u8>) -> Result<Ticks, DecodeFailure> {
    match stamp_merge(zero_stamp(), bytes, 0, RECURSION_LIMIT) {
        Ok((t, _)) => Ok(t),
        Err(e) => Err(e),
    }
}

/// Merging a `Timebase` up to a limit and then on down to a lower one is merging
/// straight down to the lower one, picking up from where the first stopped.
proof fn lemma_timebase_merge_continues(
    x: Rational,
    bytes: Seq<u8>,
    limit: nat,
    lower: nat,
    depth: u32,
    y: Rational,
    r: Seq<u8>,
)
    requires
        lower <= limit,
        timebase_merge(x, bytes, limit, depth) == Ok::<(Rational, Seq<u8>), DecodeFailure>((y, r)),
        r.len() == limit,
    ensures
        timebase_merge(x, bytes, lower, depth) == timebase_merge(y, r, lower, depth),
    decreases bytes.len(),
{
    if bytes.len() > limit {
        let (f, w, n) = tag_read(bytes)->0;
        match timebase_field(x, f, w, bytes.skip(n as int), depth) {
            Ok((next, rest)) => {
                lemma_timebase_merge_continues(next, rest, limit, lower, depth, y, r);
            },
            Err(_) => {},
        }
    }
}

/// Merging a `TimeRange` up to a limit and then on down to a lower one is merging
/// straight down to the lower one, picking up from where the first stopped.
proof fn lemma_range_merge_continues(
    x: Interval,
    bytes: Seq<u8>,
    limit: nat,
    lower: nat,
    depth: u32,
    y: Interval,
    r: Seq<u8>,
)
    requires
        lower <= limit,
        range_merge(x, bytes, limit, depth) == Ok::<(Interval, Seq<u8>), DecodeFailure>((y, r)),
        r.len() == limit,
    ensures
        range_merge(x, bytes, lower, depth) == range_merge(y, r, lower, depth),
    decreases bytes.len(),
{
    if bytes.len() > limit {
        let (f, w, n) = tag_read(bytes)->0;
        match range_field(x, f, w, bytes.skip(n as int), depth) {
            Ok((next, rest)) => {
                lemma_range_merge_continues(next, rest, limit, lower, depth, y, r);
            },
            Err(_) => {},
        }
    }
}

/// Merging a `Timestamp` up to a limit and then on down to a lower one is merging
/// straight down to the lower one, picking up from where the first stopped.
proof fn lemma_stamp_merge_continues(
    x: Ticks,
    bytes: Seq<u8>,
    limit: nat,
    lower: nat,
    depth: u32,
    y: Ticks,
    r: Seq<u8>,
)
    requires
        lower <= limit,
        stamp_merge(x, bytes, limit, depth) == Ok::<(Ticks, Seq<u8>), DecodeFailure>((y, r)),
        r.len() == limit,
    ensures
        stamp_merge(x, bytes, lower, depth) == stamp_merge(y, r, lower, depth),
    decreases bytes.len(),
{
    if bytes.len() > limit {
        let (f, w, n) = tag_read(bytes)->0;
        match stamp_field(x, f, w, bytes.skip(n as int), depth) {
            Ok((next, rest)) => {
                lemma_stamp_merge_continues(next, rest, limit, lower, depth, y, r);
            },
            Err(_) => {},
        }
    }
}

/// An unknown varint field merged into a `Timebase` leaves it as it was: the
/// field is stepped over whole. With `encode_to_vec`, such a field after an
/// encoding decodes back to the encoded value.
pub proof fn law_timebase_skips_an_unknown_varint_field(x: Rational, field_number: u32, value: u64, depth: u32)
    requires
        field_number > 2,
        field_number <= max_field_number(),
    ensures
        timebase_merge(x, tag_bytes(field_number, VARINT) + varint(value as nat), 0, depth) == Ok::<
            (Rational, Seq<u8>),
            DecodeFailure,
        >((x, Seq::<u8>::empty())),
{
    let t = tag_bytes(field_number, VARINT);
    let v = varint(value as nat);
    let bytes = t + v;
    reveal(field_skipped);
    lemma_tag_read_back(field_number, VARINT, v);
    lemma_varint_read_back(value as nat, Seq::<u8>::empty());
    assert(v + Seq::<u8>::empty() =~= v);
    assert(bytes.skip(t.len() as int) =~= v);
    assert(v.skip(v.len() as int) =~= Seq::<u8>::empty());
    assert(timebase_merge(x, Seq::<u8>::empty(), 0, depth) == Ok::<(Rational, Seq<u8>), DecodeFailure>(
        (x, Seq::<u8>::empty()),
    ));
}

/// An unknown varint field merged into a `TimeRange` leaves it as it was: the
/// field is stepped over whole. With `encode_to_vec`, such a field after an
/// encoding decodes back to the encoded value.
pub proof fn law_range_skips_an_unknown_varint_field(x: Interval, field_number: u32, value: u64, depth: u32)
    requires
        field_number > 3,
        field_number <= max_field_number(),
    ensures
        range_merge(x, tag_bytes(field_number, VARINT) + varint(value as nat), 0, depth) == Ok::<
            (Interval, Seq<u8>),
            DecodeFailure,
        >((x, Seq::<u8>::empty())),
{
    let t = tag_bytes(field_number, VARINT);
    let v = varint(value as nat);
    let bytes = t + v;
    reveal(field_skipped);
    lemma_tag_read_back(field_number, VARINT, v);
    lemma_varint_read_back(value as nat, Seq::<u8>::empty());
    assert(v + Seq::<u8>::empty() =~= v);
    assert(bytes.skip(t.len() as int) =~= v);
    assert(v.skip(v.len() as int) =~= Seq::<u8>::empty());
    assert(range_merge(x, Seq::<u8>::empty(), 0, depth) == Ok::<(Interval, Seq<u8>), DecodeFailure>(
        (x, Seq::<u8>::empty()),
    ));
}

/// An unknown varint field merged into a `Timestamp` leaves it as it was: the
/// field is stepped over whole. With `encode_to_vec`, such a field after an
/// encoding decodes back to the encoded value.
pub proof fn law_stamp_skips_an_unknown_varint_field(x: Ticks, field_number: u32, value: u64, depth: u32)
    requires
        field_number > 2,
        field_number <= max_field_number(),
    ensures
        stamp_merge(x, tag_bytes(field_number, VARINT) + varint(value as nat), 0, depth) == Ok::<
            (Ticks, Seq<u8>),
            DecodeFailure,
        >((x, Seq::<u8>::empty())),
{
    let t = tag_bytes(field_number, VARINT);
    let v = varint(value as nat);
    let bytes = t + v;
    reveal(field_skipped);
    lemma_tag_read_back(field_number, VARINT, v);
    lemma_varint_read_back(value as nat, Seq::<u8>::empty());
    assert(v + Seq::<u8>::empty() =~= v);
    assert(bytes.skip(t.len() as int) =~= v);
    assert(v.skip(v.len() as int) =~= Seq::<u8>::empty());
    assert(stamp_merge(x, Seq::<u8>::empty(), 0, depth) == Ok::<(Ticks, Seq<u8>), DecodeFailure>(
        (x, Seq::<u8>::empty()),
    ));
}

/// A nested timebase, as `write_to` writes one behind its length, is read
/// back by the nested reader whatever follows it, given one nesting level.
proof fn lemma_nested_read_back(
    tb: Rational,
    len_bytes: Seq<u8>,
    body: Seq<u8>,
    rest: Seq<u8>,
    start: Rational,
    depth: u32,
)
    requires
        depth >= 1,
        body == timebase_bytes(tb),
        len_bytes == varint(body.len()),
        body.len() <= 22,
        forall|r2: Seq<u8>|
            #[trigger] varint_read(len_bytes + r2) == Some((body.len() as u64, len_bytes.len())),
        forall|s2: Rational, r2: Seq<u8>, d2: u32|
            #[trigger] timebase_merge(s2, body + r2, r2.len(), d2) == Ok::<
                (Rational, Seq<u8>),
                DecodeFailure,
            >((tb, r2)),
    ensures
        timebase_nested(start, len_bytes + body + rest, depth) == Ok::<
            (Rational, Seq<u8>),
            DecodeFailure,
        >((tb, rest)),
{
    let all = len_bytes + body + rest;
    assert(all =~= len_bytes + (body + rest));
    assert(varint_read(len_bytes + (body + rest)) == Some((body.len() as u64, len_bytes.len())));
    assert(all.skip(len_bytes.len() as int) =~= body + rest);
    assert(timebase_merge(start, body + rest, rest.len(), (depth - 1) as u32) == Ok::<
        (Rational, Seq<u8>),
        DecodeFailure,
    >((tb, rest)));
    assert((body + rest).len() - body.len() == rest.len());
}

/// The tag `put_tag` appended reads back whatever follows it.
proof fn lemma_tag_written(before: Seq<u8>, after: Seq<u8>, field_number: u32, wire_type: u8)
    requires
        after == before + tag_bytes(field_number, wire_type),
        1 <= field_number <= max_field_number(),
        wire_type <= 5,
    ensures
        forall|rest: Seq<u8>|
            #[trigger] tag_read(tag_bytes(field_number, wire_type) + rest) == Some(
                (field_number, wire_type, tag_bytes(field_number, wire_type).len()),
            ),
{
    assert forall|rest: Seq<u8>|
        #[trigger] tag_read(tag_bytes(field_number, wire_type) + rest) == Some(
            (field_number, wire_type, tag_bytes(field_number, wire_type).len()),
        ) by {
        lemma_tag_read_back(field_number, wire_type, rest);
    }
}

/// The varint a writer appended reads back whatever follows it.
proof fn lemma_value_written(before: Seq<u8>, after: Seq<u8>, bytes: Seq<u8>, value: u64)
    requires
        after == before + bytes,
        bytes == varint(value as nat),
    ensures
        forall|rest: Seq<u8>| #[trigger] varint_read(bytes + rest) == Some((value, bytes.len())),
{
    assert forall|rest: Seq<u8>| #[trigger] varint_read(bytes + rest) == Some(
        (value, bytes.len()),
    ) by {
        lemma_varint_read_back(value as nat, rest);
    }
}

/// What `Timebase::write_to` promised of the bytes it appended, restated
/// over those bytes.
proof fn lemma_timebase_written(before: Seq<u8>, after: Seq<u8>, tb: Rational)
    requires
        after == before + timebase_bytes(tb),
        forall|start: Rational, rest: Seq<u8>, depth: u32|
            #[trigger] timebase_merge(
                start,
                after.skip(before.len() as int) + rest,
                rest.len(),
                depth,
            ) == Ok::<(Rational, Seq<u8>), DecodeFailure>((tb, rest)),
    ensures
        forall|start: Rational, rest: Seq<u8>, depth: u32|
            #[trigger] timebase_merge(start, timebase_bytes(tb) + rest, rest.len(), depth) == Ok::<
                (Rational, Seq<u8>),
                DecodeFailure,
            >((tb, rest)),
{
    assert(after.skip(before.len() as int) =~= timebase_bytes(tb));
}

/// A timebase's message takes at most twelve bytes: two one-byte tags and
/// two varints of at most five.
proof fn lemma_timebase_size(tb: Rational, num: i32, den: i32)
    requires
        tb == (Rational { num: num as int, den: den as int }),
        num >= 0,
        den > 0,
    ensures
        timebase_bytes(tb).len() <= 12,
        varint(timebase_bytes(tb).len()) == seq![timebase_bytes(tb).len() as u8],
{
    lemma_small_tag(1, VARINT);
    lemma_small_tag(2, VARINT);
    lemma_int32_varint_len(num);
    lemma_int32_varint_len(den);
}

/// Reading an endpoint field of a range: its tag and varint, then the rest
/// of the message from the updated range.
proof fn lemma_range_endpoint(r: Interval, field_number: u32, v: Seq<u8>, value: u64)
    requires
        field_number == 1 || field_number == 2,
        forall|rest: Seq<u8>|
            #[trigger] tag_read(tag_bytes(field_number, VARINT) + rest) == Some(
                (field_number, VARINT, tag_bytes(field_number, VARINT).len()),
            ),
        forall|rest: Seq<u8>| #[trigger] varint_read(v + rest) == Some((value, v.len())),
        tag_bytes(field_number, VARINT).len() == 1,
        v.len() >= 1,
    ensures
        forall|x: Seq<u8>, lim: nat, d: u32|
            x.len() >= lim ==> #[trigger] range_merge(r, tag_bytes(field_number, VARINT) + v + x, lim, d)
                == range_merge(
                if field_number == 1 {
                    Interval { start: varint_as_int64(value), ..r }
                } else {
                    Interval { end: varint_as_int64(value), ..r }
                },
                x,
                lim,
                d,
            ),
{
    let t = tag_bytes(field_number, VARINT);
    assert forall|x: Seq<u8>, lim: nat, d: u32|
        x.len() >= lim implies #[trigger] range_merge(r, t + v + x, lim, d) == range_merge(
            if field_number == 1 {
                Interval { start: varint_as_int64(value), ..r }
            } else {
                Interval { end: varint_as_int64(value), ..r }
            },
            x,
            lim,
            d,
        ) by {
        let all = t + v + x;
        assert(all =~= t + (v + x));
        assert(tag_read(t + (v + x)) == Some((field_number, VARINT, t.len())));
        assert(all.skip(t.len() as int) =~= v + x);
        assert(varint_read(v + x) == Some((value, v.len())));
        assert((v + x).skip(v.len() as int) =~= x);
    }
}

/// Reading a range's nested timebase field, the last it writes, then
/// nothing more up to `rest`.
proof fn lemma_range_timebase_field(
    r: Interval,
    tb: Rational,
    l: Seq<u8>,
    b: Seq<u8>,
    rest: Seq<u8>,
    depth: u32,
)
    requires
        depth >= 1,
        b == timebase_bytes(tb),
        l == varint(b.len()),
        b.len() <= 12,
        l.len() == 1,
        forall|x: Seq<u8>|
            #[trigger] tag_read(tag_bytes(3, LEN) + x) == Some((3u32, LEN, tag_bytes(3, LEN).len())),
        tag_bytes(3, LEN).len() == 1,
        forall|x: Seq<u8>| #[trigger] varint_read(l + x) == Some((b.len() as u64, l.len())),
        forall|s2: Rational, r2: Seq<u8>, d2: u32|
            #[trigger] timebase_merge(s2, b + r2, r2.len(), d2) == Ok::<
                (Rational, Seq<u8>),
                DecodeFailure,
            >((tb, r2)),
    ensures
        range_merge(r, tag_bytes(3, LEN) + l + b + rest, rest.len(), depth) == Ok::<
            (Interval, Seq<u8>),
            DecodeFailure,
        >((Interval { tb, ..r }, rest)),
{
    let t = tag_bytes(3, LEN);
    let all = t + l + b + rest;
    assert(all =~= t + (l + b + rest));
    assert(tag_read(t + (l + b + rest)) == Some((3u32, LEN, t.len())));
    assert(all.skip(t.len() as int) =~= l + b + rest);
    lemma_nested_read_back(tb, l, b, rest, r.tb, depth);
    assert(range_merge(Interval { tb, ..r }, rest, rest.len(), depth) == Ok::<
        (Interval, Seq<u8>),
        DecodeFailure,
    >((Interval { tb, ..r }, rest)));
    assert(range_field(r, 3, LEN, l + b + rest, depth) == Ok::<
        (Interval, Seq<u8>),
        DecodeFailure,
    >((Interval { tb, ..r }, rest)));
}

impl TimeRange {
    /// The value decoding starts from: `[0, 0)` over `1/1`.
    pub fn default_instance() -> (r: Self)
        ensures
            r@ == empty_range(),
    {
        TimeRange::new(0, 0, Timebase::default())
    }

    /// Resets to `[0, 0)` over `1/1`.
    pub fn clear(&mut self)
        ensures
            final(self)@ == empty_range(),
    {
        *self = TimeRange::new(0, 0, Timebase::default());
    }

    /// How many bytes [`Self::write_to`] writes.
    pub fn compute_size(&self) -> (r: u32)
        ensures
            r == range_bytes(self@).len(),
    {
        let start = self.start_pts();
        let end = self.end_pts();
        let mut size: u32 = 0;
        proof {
            lemma_small_tag(1, VARINT);
            lemma_small_tag(2, VARINT);
            lemma_small_tag(3, LEN);
            lemma_int64_varint_len(start);
            lemma_int64_varint_len(end);
        }
        if start != 0 {
            size = size + 1 + int64_length(start) as u32;
        }
        if end != 0 {
            size = size + 1 + int64_length(end) as u32;
        }
        let tb = self.timebase();
        let inner = tb.compute_size();
        let num = tb.num();
        let den = tb.den();
        proof {
            lemma_timebase_size(tb@, num, den);
        }
        let inner_len = varint_length(inner as u64);
        size + 1 + inner_len as u32 + inner
    }

    /// Appends the message. Decoding reads it back as this range, whatever
    /// follows, at any nesting budget of at least one.
    pub fn write_to(&self, out: &mut Vec<u8>)
        ensures
            final(out)@ == old(out)@ + range_bytes(self@),
            forall|rest: Seq<u8>, depth: u32|
                depth >= 1 ==> #[trigger] range_merge(
                    empty_range(),
                    final(out)@.skip(old(out)@.len() as int) + rest,
                    rest.len(),
                    depth,
                ) == Ok::<(Interval, Seq<u8>), DecodeFailure>((self@, rest)),
    {
        let start = self.start_pts();
        let end = self.end_pts();
        let tb = self.timebase();
        let ghost o0 = out@;
        let ghost r1 = Interval { start: start as int, ..empty_range() };
        let ghost r2 = Interval { end: end as int, ..r1 };
        proof {
            lemma_small_tag(1, VARINT);
            lemma_small_tag(2, VARINT);
            lemma_small_tag(3, LEN);
            lemma_int64_varint_len(start);
            lemma_int64_varint_len(end);
            lemma_int64_round_trip(start);
            lemma_int64_round_trip(end);
        }
        if start != 0 {
            let ghost a0 = out@;
            put_tag(out, 1, WireKind::Varint);
            let ghost a1 = out@;
            put_int64(out, start);
            proof {
                lemma_tag_written(a0, a1, 1, VARINT);
                lemma_value_written(a1, out@, varint(int64_as_varint(start)), int64_as_varint(start) as u64);
                lemma_range_endpoint(empty_range(), 1, varint(int64_as_varint(start)), int64_as_varint(start) as u64);
            }
        }
        let ghost o1 = out@;
        if end != 0 {
            let ghost a0 = out@;
            put_tag(out, 2, WireKind::Varint);
            let ghost a1 = out@;
            put_int64(out, end);
            proof {
                lemma_tag_written(a0, a1, 2, VARINT);
                lemma_value_written(a1, out@, varint(int64_as_varint(end)), int64_as_varint(end) as u64);
                lemma_range_endpoint(r1, 2, varint(int64_as_varint(end)), int64_as_varint(end) as u64);
            }
        }
        let ghost o2 = out@;
        let inner = tb.compute_size();
        let num = tb.num();
        let den = tb.den();
        put_tag(out, 3, WireKind::LengthDelimited);
        let ghost o3 = out@;
        put_varint(out, inner as u64);
        let ghost o4 = out@;
        tb.write_to(out);
        let ghost o5 = out@;
        proof {
            let s = o1.skip(o0.len() as int);
            let e = o2.skip(o1.len() as int);
            let t = tag_bytes(3, LEN);
            let l = varint(inner as nat);
            let b = timebase_bytes(tb@);
            lemma_tag_written(o2, o3, 3, LEN);
            lemma_value_written(o3, o4, l, inner as u64);
            lemma_timebase_written(o4, o5, tb@);
            lemma_timebase_size(tb@, num, den);
            assert(start != 0 ==> s =~= tag_bytes(1, VARINT) + varint(int64_as_varint(start)));
            assert(start == 0 ==> s =~= Seq::<u8>::empty());
            assert(end != 0 ==> e =~= tag_bytes(2, VARINT) + varint(int64_as_varint(end)));
            assert(end == 0 ==> e =~= Seq::<u8>::empty());
            assert(o5.skip(o0.len() as int) =~= s + e + t + l + b);
            assert(o5.skip(o0.len() as int) =~= range_bytes(self@));
            assert forall|rest: Seq<u8>, depth: u32|
                depth >= 1 implies #[trigger] range_merge(
                    empty_range(),
                    o5.skip(o0.len() as int) + rest,
                    rest.len(),
                    depth,
                ) == Ok::<(Interval, Seq<u8>), DecodeFailure>((self@, rest)) by {
                let n = t + l + b + rest;
                assert(o5.skip(o0.len() as int) + rest =~= s + (e + n));
                if start != 0 {
                    assert(s + (e + n) =~= tag_bytes(1, VARINT) + varint(int64_as_varint(start)) + (
                    e + n));
                } else {
                    assert(s + (e + n) =~= e + n);
                }
                if end != 0 {
                    assert(e + n =~= tag_bytes(2, VARINT) + varint(int64_as_varint(end)) + n);
                } else {
                    assert(e + n =~= n);
                }
                lemma_range_timebase_field(r2, tb@, l, b, rest, depth);
                assert(range_merge(r2, n, rest.len(), depth) == Ok::<
                    (Interval, Seq<u8>),
                    DecodeFailure,
                >((self@, rest)));
            }
        }
    }

    /// The message as a new buffer, which [`Self::decode_from_slice`] reads
    /// back as this range. Bytes appended to it are merged into that range as
    /// further fields, so unknown fields after it leave it as it is.
    pub fn encode_to_vec(&self) -> (r: Vec<u8>)
        ensures
            r@ == range_bytes(self@),
            range_decoded(r@) == Ok::<Interval, DecodeFailure>(self@),
            forall|more: Seq<u8>|
                #[trigger] range_decoded(r@ + more) == match range_merge(self@, more, 0, RECURSION_LIMIT) {
                    Ok((v, _)) => Ok::<Interval, DecodeFailure>(v),
                    Err(e) => Err(e),
                },
    {
        let mut out: Vec<u8> = Vec::new();
        self.write_to(&mut out);
        proof {
            assert(out@.skip(0) + Seq::<u8>::empty() =~= out@);
            assert forall|more: Seq<u8>|
                #[trigger] range_decoded(out@ + more) == match range_merge(self@, more, 0, RECURSION_LIMIT) {
                    Ok((v, _)) => Ok::<Interval, DecodeFailure>(v),
                    Err(e) => Err(e),
                } by {
                assert(out@.skip(0) + more =~= out@ + more);
                assert(range_merge(empty_range(), out@ + more, more.len(), RECURSION_LIMIT) == Ok::<
                    (Interval, Seq<u8>),
                    DecodeFailure,
                >((self@, more)));
                lemma_range_merge_continues(
                    empty_range(),
                    out@ + more,
                    more.len(),
                    0,
                    RECURSION_LIMIT,
                    self@,
                    more,
                );
            }
        }
        out
    }

    /// Merges one field, whose tag has been read, from the front of `buf`:
    /// fields 1 and 2 set the endpoints as written — a range decoded field by
    /// field may run backwards, so no order is checked — field 3 merges the
    /// nested timebase, and any other field is skipped.
    pub fn merge_field(&mut self, tag: &WireTag, buf: &mut &[u8], depth: u32) -> (r: Result<
        (),
        WireError,
    >)
        ensures
            match range_field(
                old(self)@,
                tag.spec_field_number(),
                tag.spec_wire_type(),
                old(buf)@,
                depth,
            ) {
                Ok((range, rest)) => {
                    &&& r is Ok
                    &&& final(self)@ == range
                    &&& final(buf)@ == rest
                    &&& rest.len() <= old(buf)@.len()
                },
                Err(e) => {
                    &&& r matches Err(x) && x.failure() == e
                    &&& *final(self) == *old(self)
                    &&& ((tag.spec_field_number() == 1 || tag.spec_field_number() == 2) && tag.spec_wire_type()
                        != VARINT) || (tag.spec_field_number() == 3 && tag.spec_wire_type() != LEN) ==> final(buf)@ == old(buf)@
                },
            },
            is_tail(final(buf)@, old(buf)@),
    {
        proof {
            lemma_tail_of_itself(buf@);
        }
        let field_number = tag.field_number();
        let wire_type = tag.wire_type();
        if field_number == 1 {
            if wire_type != VARINT {
                return Err(
                    WireError::WireTypeMismatch { field_number: 1, expected: VARINT, actual: wire_type },
                );
            }
            let v = match read_int64(buf) {
                Ok(v) => v,
                Err(e) => return Err(e),
            };
            *self = self.with_start(v);
        } else if field_number == 2 {
            if wire_type != VARINT {
                return Err(
                    WireError::WireTypeMismatch { field_number: 2, expected: VARINT, actual: wire_type },
                );
            }
            let v = match read_int64(buf) {
                Ok(v) => v,
                Err(e) => return Err(e),
            };
            *self = self.with_end(v);
        } else if field_number == 3 {
            if wire_type != LEN {
                return Err(
                    WireError::WireTypeMismatch { field_number: 3, expected: LEN, actual: wire_type },
                );
            }
            let mut tb = self.timebase();
            match tb.merge_length_delimited(buf, depth) {
                Ok(()) => {},
                Err(e) => return Err(e),
            }
            *self = self.with_timebase(tb);
        } else {
            proof {
                lemma_skipping_stays_within(field_number, wire_type, buf@, depth);
            }
            match skip_field(tag, buf, depth) {
                Ok(()) => {},
                Err(e) => return Err(e),
            }
        }
        Ok(())
    }

    /// Merges fields from the front of `buf` until no more than `limit` bytes
    /// are left.
    pub fn merge_to_limit(&mut self, buf: &mut &[u8], limit: usize, depth: u32) -> (r: Result<
        (),
        WireError,
    >)
        ensures
            match range_merge(old(self)@, old(buf)@, limit as nat, depth) {
                Ok((range, rest)) => r is Ok && final(self)@ == range && final(buf)@ == rest,
                Err(e) => r matches Err(x) && x.failure() == e,
            },
            is_tail(final(buf)@, old(buf)@),
    {
        let ghost goal = range_merge(self@, buf@, limit as nat, depth);
        proof {
            lemma_tail_of_itself(buf@);
        }
        while buf.len() > limit
            invariant
                is_tail(buf@, old(buf)@),
                range_merge(self@, buf@, limit as nat, depth) == goal,
                goal == range_merge(old(self)@, old(buf)@, limit as nat, depth),
            decreases buf@.len(),
        {
            let ghost before = buf@;
            let tag_read = read_tag(buf);
            proof {
                lemma_tail_of_tail(buf@, before, old(buf)@);
            }
            let tag = match tag_read {
                Ok(t) => t,
                Err(e) => return Err(e),
            };
            let ghost after_tag = buf@;
            let merged = self.merge_field(&tag, buf, depth);
            proof {
                lemma_tail_of_tail(buf@, after_tag, old(buf)@);
            }
            match merged {
                Ok(()) => {},
                Err(e) => return Err(e),
            }
            proof {
                assert(buf@.len() < before.len());
            }
        }
        Ok(())
    }

    /// Decodes a whole buffer as a `TimeRange`, starting from `[0, 0)` over
    /// `1/1`.
    pub fn decode_from_slice(bytes: &[u8]) -> (r: Result<Self, WireError>)
        ensures
            match range_decoded(bytes@) {
                Ok(range) => r matches Ok(x) && x@ == range,
                Err(e) => r matches Err(x) && x.failure() == e,
            },
    {
        let mut range = TimeRange::new(0, 0, Timebase::default());
        let mut buf = bytes;
        match range.merge_to_limit(&mut buf, 0, RECURSION_LIMIT) {
            Ok(()) => Ok(range),
            Err(e) => Err(e),
        }
    }
}

/// Reading a timestamp's PTS field: its tag and varint, then the rest of
/// the message from the updated timestamp.
proof fn lemma_stamp_pts(t: Ticks, v: Seq<u8>, value: u64)
    requires
        forall|rest: Seq<u8>|
            #[trigger] tag_read(tag_bytes(1, VARINT) + rest) == Some(
                (1u32, VARINT, tag_bytes(1, VARINT).len()),
            ),
        forall|rest: Seq<u8>| #[trigger] varint_read(v + rest) == Some((value, v.len())),
        tag_bytes(1, VARINT).len() == 1,
        v.len() >= 1,
    ensures
        forall|x: Seq<u8>, lim: nat, d: u32|
            x.len() >= lim ==> #[trigger] stamp_merge(t, tag_bytes(1, VARINT) + v + x, lim, d)
                == stamp_merge(Ticks { count: varint_as_int64(value), tb: t.tb }, x, lim, d),
{
    let tg = tag_bytes(1, VARINT);
    assert forall|x: Seq<u8>, lim: nat, d: u32|
        x.len() >= lim implies #[trigger] stamp_merge(t, tg + v + x, lim, d) == stamp_merge(
            Ticks { count: varint_as_int64(value), tb: t.tb },
            x,
            lim,
            d,
        ) by {
        let all = tg + v + x;
        assert(all =~= tg + (v + x));
        assert(tag_read(tg + (v + x)) == Some((1u32, VARINT, tg.len())));
        assert(all.skip(tg.len() as int) =~= v + x);
        assert(varint_read(v + x) == Some((value, v.len())));
        assert((v + x).skip(v.len() as int) =~= x);
    }
}

/// Reading a timestamp's nested timebase field, the last it writes, then
/// nothing more up to `rest`.
proof fn lemma_stamp_timebase_field(
    t: Ticks,
    tb: Rational,
    l: Seq<u8>,
    b: Seq<u8>,
    rest: Seq<u8>,
    depth: u32,
)
    requires
        depth >= 1,
        b == timebase_bytes(tb),
        l == varint(b.len()),
        b.len() <= 12,
        l.len() == 1,
        forall|x: Seq<u8>|
            #[trigger] tag_read(tag_bytes(2, LEN) + x) == Some((2u32, LEN, tag_bytes(2, LEN).len())),
        tag_bytes(2, LEN).len() == 1,
        forall|x: Seq<u8>| #[trigger] varint_read(l + x) == Some((b.len() as u64, l.len())),
        forall|s2: Rational, r2: Seq<u8>, d2: u32|
            #[trigger] timebase_merge(s2, b + r2, r2.len(), d2) == Ok::<
                (Rational, Seq<u8>),
                DecodeFailure,
            >((tb, r2)),
    ensures
        stamp_merge(t, tag_bytes(2, LEN) + l + b + rest, rest.len(), depth) == Ok::<
            (Ticks, Seq<u8>),
            DecodeFailure,
        >((Ticks { count: t.count, tb }, rest)),
{
    let tg = tag_bytes(2, LEN);
    let all = tg + l + b + rest;
    assert(all =~= tg + (l + b + rest));
    assert(tag_read(tg + (l + b + rest)) == Some((2u32, LEN, tg.len())));
    assert(all.skip(tg.len() as int) =~= l + b + rest);
    lemma_nested_read_back(tb, l, b, rest, t.tb, depth);
    assert(stamp_merge(Ticks { count: t.count, tb }, rest, rest.len(), depth) == Ok::<
        (Ticks, Seq<u8>),
        DecodeFailure,
    >((Ticks { count: t.count, tb }, rest)));
    assert(stamp_field(t, 2, LEN, l + b + rest, depth) == Ok::<
        (Ticks, Seq<u8>),
        DecodeFailure,
    >((Ticks { count: t.count, tb }, rest)));
}

impl Timestamp {
    /// The value decoding starts from: PTS zero over `1/1`.
    pub fn default_instance() -> (r: Self)
        ensures
            r@ == zero_stamp(),
    {
        Timestamp::new(0, Timebase::default())
    }

    /// Resets to PTS zero over `1/1`.
    pub fn clear(&mut self)
        ensures
            final(self)@ == zero_stamp(),
    {
        *self = Timestamp::new(0, Timebase::default());
    }

    /// How many bytes [`Self::write_to`] writes.
    pub fn compute_size(&self) -> (r: u32)
        ensures
            r == stamp_bytes(self@).len(),
    {
        let pts = self.pts();
        let mut size: u32 = 0;
        proof {
            lemma_small_tag(1, VARINT);
            lemma_small_tag(2, LEN);
            lemma_int64_varint_len(pts);
        }
        if pts != 0 {
            size = size + 1 + int64_length(pts) as u32;
        }
        let tb = self.timebase();
        let inner = tb.compute_size();
        let num = tb.num();
        let den = tb.den();
        proof {
            lemma_timebase_size(tb@, num, den);
        }
        let inner_len = varint_length(inner as u64);
        size + 1 + inner_len as u32 + inner
    }

    /// Appends the message. Decoding reads it back as this timestamp,
    /// whatever follows, at any nesting budget of at least one.
    pub fn write_to(&self, out: &mut Vec<u8>)
        ensures
            final(out)@ == old(out)@ + stamp_bytes(self@),
            forall|rest: Seq<u8>, depth: u32|
                depth >= 1 ==> #[trigger] stamp_merge(
                    zero_stamp(),
                    final(out)@.skip(old(out)@.len() as int) + rest,
                    rest.len(),
                    depth,
                ) == Ok::<(Ticks, Seq<u8>), DecodeFailure>((self@, rest)),
    {
        let pts = self.pts();
        let tb = self.timebase();
        let ghost o0 = out@;
        let ghost t1 = Ticks { count: pts as int, tb: zero_stamp().tb };
        proof {
            lemma_small_tag(1, VARINT);
            lemma_small_tag(2, LEN);
            lemma_int64_varint_len(pts);
            lemma_int64_round_trip(pts);
        }
        if pts != 0 {
            let ghost a0 = out@;
            put_tag(out, 1, WireKind::Varint);
            let ghost a1 = out@;
            put_int64(out, pts);
            proof {
                lemma_tag_written(a0, a1, 1, VARINT);
                lemma_value_written(a1, out@, varint(int64_as_varint(pts)), int64_as_varint(pts) as u64);
                lemma_stamp_pts(zero_stamp(), varint(int64_as_varint(pts)), int64_as_varint(pts) as u64);
            }
        }
        let ghost o1 = out@;
        let inner = tb.compute_size();
        let num = tb.num();
        let den = tb.den();
        put_tag(out, 2, WireKind::LengthDelimited);
        let ghost o2 = out@;
        put_varint(out, inner as u64);
        let ghost o3 = out@;
        tb.write_to(out);
        let ghost o4 = out@;
        proof {
            let p = o1.skip(o0.len() as int);
            let t = tag_bytes(2, LEN);
            let l = varint(inner as nat);
            let b = timebase_bytes(tb@);
            lemma_tag_written(o1, o2, 2, LEN);
            lemma_value_written(o2, o3, l, inner as u64);
            lemma_timebase_written(o3, o4, tb@);
            lemma_timebase_size(tb@, num, den);
            assert(pts != 0 ==> p =~= tag_bytes(1, VARINT) + varint(int64_as_varint(pts)));
            assert(pts == 0 ==> p =~= Seq::<u8>::empty());
            assert(o4.skip(o0.len() as int) =~= p + t + l + b);
            assert(o4.skip(o0.len() as int) =~= stamp_bytes(self@));
            assert forall|rest: Seq<u8>, depth: u32|
                depth >= 1 implies #[trigger] stamp_merge(
                    zero_stamp(),
                    o4.skip(o0.len() as int) + rest,
                    rest.len(),
                    depth,
                ) == Ok::<(Ticks, Seq<u8>), DecodeFailure>((self@, rest)) by {
                let n = t + l + b + rest;
                assert(o4.skip(o0.len() as int) + rest =~= p + n);
                if pts != 0 {
                    assert(p + n =~= tag_bytes(1, VARINT) + varint(int64_as_varint(pts)) + n);
                } else {
                    assert(p + n =~= n);
                }
                lemma_stamp_timebase_field(t1, tb@, l, b, rest, depth);
            }
        }
    }

    /// The message as a new buffer, which [`Self::decode_from_slice`] reads
    /// back as this timestamp. Bytes appended to it are merged into that timestamp as
    /// further fields, so unknown fields after it leave it as it is.
    pub fn encode_to_vec(&self) -> (r: Vec<u8>)
        ensures
            r@ == stamp_bytes(self@),
            stamp_decoded(r@) == Ok::<Ticks, DecodeFailure>(self@),
            forall|more: Seq<u8>|
                #[trigger] stamp_decoded(r@ + more) == match stamp_merge(self@, more, 0, RECURSION_LIMIT) {
                    Ok((v, _)) => Ok::<Ticks, DecodeFailure>(v),
                    Err(e) => Err(e),
                },
    {
        let mut out: Vec<u8> = Vec::new();
        self.write_to(&mut out);
        proof {
            assert(out@.skip(0) + Seq::<u8>::empty() =~= out@);
            assert forall|more: Seq<u8>|
                #[trigger] stamp_decoded(out@ + more) == match stamp_merge(self@, more, 0, RECURSION_LIMIT) {
                    Ok((v, _)) => Ok::<Ticks, DecodeFailure>(v),
                    Err(e) => Err(e),
                } by {
                assert(out@.skip(0) + more =~= out@ + more);
                assert(stamp_merge(zero_stamp(), out@ + more, more.len(), RECURSION_LIMIT) == Ok::<
                    (Ticks, Seq<u8>),
                    DecodeFailure,
                >((self@, more)));
                lemma_stamp_merge_continues(
                    zero_stamp(),
                    out@ + more,
                    more.len(),
                    0,
                    RECURSION_LIMIT,
                    self@,
                    more,
                );
            }
        }
        out
    }

    /// Merges one field, whose tag has been read, from the front of `buf`:
    /// field 1 sets the PTS, field 2 merges the nested timebase, and any
    /// other field is skipped.
    pub fn merge_field(&mut self, tag: &WireTag, buf: &mut &[u8], depth: u32) -> (r: Result<
        (),
        WireError,
    >)
        ensures
            match stamp_field(
                old(self)@,
                tag.spec_field_number(),
                tag.spec_wire_type(),
                old(buf)@,
                depth,
            ) {
                Ok((t, rest)) => {
                    &&& r is Ok
                    &&& final(self)@ == t
                    &&& final(buf)@ == rest
                    &&& rest.len() <= old(buf)@.len()
                },
                Err(e) => {
                    &&& r matches Err(x) && x.failure() == e
                    &&& *final(self) == *old(self)
                    &&& (tag.spec_field_number() == 1 && tag.spec_wire_type() != VARINT) || (
                        tag.spec_field_number() == 2 && tag.spec_wire_type() != LEN) ==> final(buf)@ == old(buf)@
                },
            },
            is_tail(final(buf)@, old(buf)@),
    {
        proof {
            lemma_tail_of_itself(buf@);
        }
        let field_number = tag.field_number();
        let wire_type = tag.wire_type();
        if field_number == 1 {
            if wire_type != VARINT {
                return Err(
                    WireError::WireTypeMismatch { field_number: 1, expected: VARINT, actual: wire_type },
                );
            }
            let v = match read_int64(buf) {
                Ok(v) => v,
                Err(e) => return Err(e),
            };
            *self = Timestamp::new(v, self.timebase());
        } else if field_number == 2 {
            if wire_type != LEN {
                return Err(
                    WireError::WireTypeMismatch { field_number: 2, expected: LEN, actual: wire_type },
                );
            }
            let mut tb = self.timebase();
            match tb.merge_length_delimited(buf, depth) {
                Ok(()) => {},
                Err(e) => return Err(e),
            }
            *self = Timestamp::new(self.pts(), tb);
        } else {
            proof {
                lemma_skipping_stays_within(field_number, wire_type, buf@, depth);
            }
            match skip_field(tag, buf, depth) {
                Ok(()) => {},
                Err(e) => return Err(e),
            }
        }
        Ok(())
    }

    /// Merges fields from the front of `buf` until no more than `limit` bytes
    /// are left.
    pub fn merge_to_limit(&mut self, buf: &mut &[u8], limit: usize, depth: u32) -> (r: Result<
        (),
        WireError,
    >)
        ensures
            match stamp_merge(old(self)@, old(buf)@, limit as nat, depth) {
                Ok((t, rest)) => r is Ok && final(self)@ == t && final(buf)@ == rest,
                Err(e) => r matches Err(x) && x.failure() == e,
            },
            is_tail(final(buf)@, old(buf)@),
    {
        let ghost goal = stamp_merge(self@, buf@, limit as nat, depth);
        proof {
            lemma_tail_of_itself(buf@);
        }
        while buf.len() > limit
            invariant
                is_tail(buf@, old(buf)@),
                stamp_merge(self@, buf@, limit as nat, depth) == goal,
                goal == stamp_merge(old(self)@, old(buf)@, limit as nat, depth),
            decreases buf@.len(),
        {
            let ghost before = buf@;
            let tag_read = read_tag(buf);
            proof {
                lemma_tail_of_tail(buf@, before, old(buf)@);
            }
            let tag = match tag_read {
                Ok(t) => t,
                Err(e) => return Err(e),
            };
            let ghost after_tag = buf@;
            let merged = self.merge_field(&tag, buf, depth);
            proof {
                lemma_tail_of_tail(buf@, after_tag, old(buf)@);
            }
            match merged {
                Ok(()) => {},
                Err(e) => return Err(e),
            }
            proof {
                assert(buf@.len() < before.len());
            }
        }
        Ok(())
    }

    /// Decodes a whole buffer as a `Timestamp`, starting from PTS zero over
    /// `1/1`.
    pub fn decode_from_slice(bytes: &[u8]) -> (r: Result<Self, WireError>)
        ensures
            match stamp_decoded(bytes@) {
                Ok(t) => r matches Ok(x) && x@ == t,
                Err(e) => r matches Err(x) && x.failure() == e,
            },
    {
        let mut t = Timestamp::new(0, Timebase::default());
        let mut buf = bytes;
        match t.merge_to_limit(&mut buf, 0, RECURSION_LIMIT) {
            Ok(()) => Ok(t),
            Err(e) => Err(e),
        }
    }
}

} // verus!

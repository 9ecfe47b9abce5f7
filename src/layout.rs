//! The byte layout of each field, written back from the values read: what
//! reading a field consumed is exactly the encoding of the value it gave.

use vstd::prelude::*;
use vstd::utf8::{
    decode_utf8, decode_utf8_encode_utf8, encode_utf8, encode_utf8_decode_utf8,
    encode_utf8_valid_utf8, valid_utf8,
};

use crate::archive::{
    le_u16, le_u32, le_u64, parse_array, parse_bytes, parse_fstring, parse_guid, parse_i32,
    parse_i64, parse_items, parse_u16, parse_u32, pow2_spec, signed, UESerializable,
};
use crate::compression::{narrow_offset, FCompressedChunk};
use crate::UpkError;
use crate::package::{
    compression_flags_of, parse_skip, parse_skip_unknown_structs, parse_summary, FGenerationInfo,
    FGuid, SummaryModel, PACKAGE_MAGIC,
};

verus! {

/// Two little-endian bytes of `v`.
pub open spec fn u16_bytes(v: int) -> Seq<u8> {
    seq![(v % 0x100) as u8, (v / 0x100 % 0x100) as u8]
}

/// Four little-endian bytes of `v`.
pub open spec fn u32_bytes(v: int) -> Seq<u8> {
    seq![
        (v % 0x100) as u8,
        (v / 0x100 % 0x100) as u8,
        (v / 0x1_0000 % 0x100) as u8,
        (v / 0x100_0000 % 0x100) as u8,
    ]
}

/// The two's complement bits of a signed 32-bit value, as an unsigned value.
pub open spec fn unsigned32(v: i32) -> int {
    if v < 0 {
        v + 0x1_0000_0000
    } else {
        v as int
    }
}

/// Four little-endian bytes of a signed 32-bit value.
pub open spec fn i32_bytes(v: i32) -> Seq<u8> {
    u32_bytes(unsigned32(v))
}

/// A length-prefixed string: its UTF-8 byte length, then those bytes.
pub open spec fn fstring_bytes(s: Seq<char>) -> Seq<u8> {
    i32_bytes(encode_utf8(s).len() as i32) + encode_utf8(s)
}

proof fn lemma_u32_digits(s: Seq<u8>)
    requires
        s.len() == 4,
    ensures
        u32_bytes(le_u32(s)) == s,
        0 <= le_u32(s) < 0x1_0000_0000,
{
    let v = le_u32(s);
    let (a, b, c, d) = (s[0] as int, s[1] as int, s[2] as int, s[3] as int);
    assert(v == a + b * 0x100 + c * 0x1_0000 + d * 0x100_0000);
    assert(v % 0x100 == a && v / 0x100 % 0x100 == b && v / 0x1_0000 % 0x100 == c && v / 0x100_0000
        % 0x100 == d) by (nonlinear_arith)
        requires
            v == a + b * 0x100 + c * 0x1_0000 + d * 0x100_0000,
            0 <= a < 0x100,
            0 <= b < 0x100,
            0 <= c < 0x100,
            0 <= d < 0x100,
    ;
    assert(u32_bytes(v) =~= s);
}

proof fn lemma_u32_value(v: int)
    requires
        0 <= v < 0x1_0000_0000,
    ensures
        le_u32(u32_bytes(v)) == v,
{
    let s = u32_bytes(v);
    assert(v == v % 0x100 + (v / 0x100 % 0x100) * 0x100 + (v / 0x1_0000 % 0x100) * 0x1_0000 + (v
        / 0x100_0000 % 0x100) * 0x100_0000) by (nonlinear_arith)
        requires
            0 <= v < 0x1_0000_0000,
    ;
}

/// What reading a `u32` consumed is the encoding of the value read.
pub proof fn lemma_u32_layout(b: Seq<u8>, p: int)
    ensures
        parse_u32(b, p) matches Ok((v, q)) ==> p + 4 == q <= b.len() && b.subrange(p, q) == u32_bytes(
            v as int,
        ),
{
    if 0 <= p && p + 4 <= b.len() {
        lemma_u32_digits(b.subrange(p, p + 4));
    }
}

/// What reading a `u16` consumed is the encoding of the value read.
pub proof fn lemma_u16_layout(b: Seq<u8>, p: int)
    ensures
        parse_u16(b, p) matches Ok((v, q)) ==> p + 2 == q <= b.len() && b.subrange(p, q) == u16_bytes(
            v as int,
        ),
{
    if 0 <= p && p + 2 <= b.len() {
        let s = b.subrange(p, p + 2);
        let (x, y) = (s[0] as int, s[1] as int);
        let v = le_u16(s);
        assert(v % 0x100 == x && v / 0x100 % 0x100 == y) by (nonlinear_arith)
            requires
                v == x + y * 0x100,
                0 <= x < 0x100,
                0 <= y < 0x100,
        ;
        assert(u16_bytes(v) =~= s);
    }
}

/// What reading an `i32` consumed is the encoding of the value read.
pub proof fn lemma_i32_layout(b: Seq<u8>, p: int)
    ensures
        parse_i32(b, p) matches Ok((v, q)) ==> p + 4 == q <= b.len() && b.subrange(p, q) == i32_bytes(
            v,
        ),
{
    if 0 <= p && p + 4 <= b.len() {
        let s = b.subrange(p, p + 4);
        lemma_u32_digits(s);
        reveal_with_fuel(pow2_spec, 33);
        let v = signed(le_u32(s), 32) as i32;
        assert(unsigned32(v) == le_u32(s));
    }
}

/// Reading an `i32` from its own encoding gives it back.
pub proof fn lemma_i32_round_trip(v: i32, rest: Seq<u8>)
    ensures
        parse_i32(i32_bytes(v) + rest, 0) == Ok::<(i32, int), crate::UpkError>((v, 4)),
{
    let u = unsigned32(v);
    lemma_u32_value(u);
    let b = i32_bytes(v) + rest;
    assert(b.subrange(0, 4) =~= i32_bytes(v));
    reveal_with_fuel(pow2_spec, 33);
}

/// What reading a string consumed is the length-prefixed encoding of the
/// string read.
pub proof fn lemma_fstring_layout(b: Seq<u8>, p: int)
    ensures
        parse_fstring(b, p) matches Ok((s, q)) ==> p + 4 <= q <= b.len() && b.subrange(p, q)
            == fstring_bytes(s),
{
    lemma_i32_layout(b, p);
    match parse_i32(b, p) {
        Ok((len, q)) => {
            if len > 0 {
                match parse_bytes(b, q, len as int) {
                    Ok((payload, r)) => {
                        if valid_utf8(payload) {
                            decode_utf8_encode_utf8(payload);
                            assert(b.subrange(p, r) =~= b.subrange(p, q) + payload);
                        }
                    },
                    Err(_) => {},
                }
            } else if len == 0 {
                assert(encode_utf8(Seq::<char>::empty()) =~= Seq::<u8>::empty());
                assert(b.subrange(p, q) + Seq::<u8>::empty() =~= b.subrange(p, q));
            }
        },
        Err(_) => {},
    }
}

/// Reading a string back from its length-prefixed encoding gives exactly that
/// string, whatever follows it: the empty string from length 0, and any other
/// from its UTF-8 bytes.
pub proof fn lemma_fstring_round_trip(s: Seq<char>, rest: Seq<u8>)
    requires
        encode_utf8(s).len() <= i32::MAX,
    ensures
        parse_fstring(fstring_bytes(s) + rest, 0) == Ok::<(Seq<char>, int), crate::UpkError>(
            (s, fstring_bytes(s).len() as int),
        ),
{
    let e = encode_utf8(s);
    let n = e.len() as i32;
    let b = fstring_bytes(s) + rest;
    assert(b =~= i32_bytes(n) + (e + rest));
    lemma_i32_round_trip(n, e + rest);
    encode_utf8_valid_utf8(s);
    encode_utf8_decode_utf8(s);
    if s.len() > 0 {
        assert(e.len() > 0);
        assert(b.subrange(4, 4 + n) =~= e);
    } else {
        assert(s =~= Seq::<char>::empty());
    }
}

/// The two's complement bits of a signed 64-bit value, as an unsigned value.
pub open spec fn unsigned64(v: i64) -> int {
    if v < 0 {
        v + 0x1_0000_0000_0000_0000
    } else {
        v as int
    }
}

/// Eight little-endian bytes of a signed 64-bit value.
pub open spec fn i64_bytes(v: i64) -> Seq<u8> {
    u32_bytes(unsigned64(v) % 0x1_0000_0000) + u32_bytes(unsigned64(v) / 0x1_0000_0000)
}

/// What reading an `i64` consumed is the encoding of the value read.
pub proof fn lemma_i64_layout(b: Seq<u8>, p: int)
    ensures
        parse_i64(b, p) matches Ok((v, q)) ==> p + 8 == q <= b.len() && b.subrange(p, q) == i64_bytes(
            v,
        ),
{
    if 0 <= p && p + 8 <= b.len() {
        let s = b.subrange(p, p + 8);
        let lo = s.subrange(0, 4);
        let hi = s.subrange(4, 8);
        lemma_u32_digits(lo);
        lemma_u32_digits(hi);
        let (x, y) = (le_u32(lo), le_u32(hi));
        let u = le_u64(s);
        assert(u % 0x1_0000_0000 == x && u / 0x1_0000_0000 == y) by (nonlinear_arith)
            requires
                u == x + y * 0x1_0000_0000,
                0 <= x < 0x1_0000_0000,
                0 <= y < 0x1_0000_0000,
        ;
        reveal_with_fuel(pow2_spec, 65);
        let v = signed(u, 64) as i64;
        assert(unsigned64(v) == u);
        assert(s =~= lo + hi);
    }
}

/// `e` stands in `b` at `p`.
#[verifier::opaque]
pub open spec fn holds_at(b: Seq<u8>, p: int, e: Seq<u8>) -> bool {
    0 <= p && p + e.len() <= b.len() && b.subrange(p, p + e.len()) == e
}

/// Where `e` stands, it lies within `b`.
pub proof fn lemma_holds_at_bounds(b: Seq<u8>, p: int, e: Seq<u8>)
    requires
        holds_at(b, p, e),
    ensures
        0 <= p && p + e.len() <= b.len(),
{
    reveal(holds_at);
}

/// Where `x + y` stands, `x` stands, and `y` right after it.
pub proof fn lemma_split(b: Seq<u8>, p: int, x: Seq<u8>, y: Seq<u8>)
    requires
        holds_at(b, p, x + y),
    ensures
        holds_at(b, p, x),
        holds_at(b, p + x.len(), y),
{
    reveal(holds_at);
    assert(b.subrange(p, p + x.len()) =~= (x + y).subrange(0, x.len() as int));
    assert(b.subrange(p + x.len(), p + x.len() + y.len()) =~= (x + y).subrange(
        x.len() as int,
        (x + y).len() as int,
    ));
    assert((x + y).subrange(0, x.len() as int) =~= x);
    assert((x + y).subrange(x.len() as int, (x + y).len() as int) =~= y);
}

/// Reading a `u32` where its encoding stands gives it back.
pub proof fn lemma_u32_read_back(b: Seq<u8>, p: int, v: u32)
    requires
        holds_at(b, p, u32_bytes(v as int)),
    ensures
        parse_u32(b, p) == Ok::<(u32, int), crate::UpkError>((v, p + 4)),
{
    reveal(holds_at);
    lemma_u32_value(v as int);
}

/// Reading a `u16` where its encoding stands gives it back.
pub proof fn lemma_u16_read_back(b: Seq<u8>, p: int, v: u16)
    requires
        holds_at(b, p, u16_bytes(v as int)),
    ensures
        parse_u16(b, p) == Ok::<(u16, int), crate::UpkError>((v, p + 2)),
{
    reveal(holds_at);
    let x = v as int;
    assert(x == x % 0x100 + (x / 0x100 % 0x100) * 0x100) by (nonlinear_arith)
        requires
            0 <= x < 0x1_0000,
    ;
}

/// Reading an `i32` where its encoding stands gives it back.
pub proof fn lemma_i32_read_back(b: Seq<u8>, p: int, v: i32)
    requires
        holds_at(b, p, i32_bytes(v)),
    ensures
        parse_i32(b, p) == Ok::<(i32, int), crate::UpkError>((v, p + 4)),
{
    reveal(holds_at);
    lemma_u32_value(unsigned32(v));
    reveal_with_fuel(pow2_spec, 33);
}

/// Reading an `i64` where its encoding stands gives it back.
pub proof fn lemma_i64_read_back(b: Seq<u8>, p: int, v: i64)
    requires
        holds_at(b, p, i64_bytes(v)),
    ensures
        parse_i64(b, p) == Ok::<(i64, int), crate::UpkError>((v, p + 8)),
{
    reveal(holds_at);
    let u = unsigned64(v);
    let lo = u % 0x1_0000_0000;
    let hi = u / 0x1_0000_0000;
    assert(0 <= hi < 0x1_0000_0000 && u == lo + hi * 0x1_0000_0000) by (nonlinear_arith)
        requires
            0 <= u < 0x1_0000_0000_0000_0000,
            lo == u % 0x1_0000_0000,
            hi == u / 0x1_0000_0000,
    ;
    lemma_u32_value(lo);
    lemma_u32_value(hi);
    let s = b.subrange(p, p + 8);
    assert(s.subrange(0, 4) =~= u32_bytes(lo));
    assert(s.subrange(4, 8) =~= u32_bytes(hi));
    reveal_with_fuel(pow2_spec, 65);
}

/// Reading a string where its length-prefixed encoding stands gives it back.
pub proof fn lemma_fstring_read_back(b: Seq<u8>, p: int, s: Seq<char>)
    requires
        encode_utf8(s).len() <= i32::MAX,
        holds_at(b, p, fstring_bytes(s)),
    ensures
        parse_fstring(b, p) == Ok::<(Seq<char>, int), crate::UpkError>(
            (s, p + fstring_bytes(s).len()),
        ),
{
    reveal(holds_at);
    let e = encode_utf8(s);
    let n = e.len() as i32;
    lemma_split(b, p, i32_bytes(n), e);
    lemma_i32_read_back(b, p, n);
    encode_utf8_valid_utf8(s);
    encode_utf8_decode_utf8(s);
    if s.len() > 0 {
        assert(e.len() > 0);
    } else {
        assert(s =~= Seq::<char>::empty());
    }
}

/// Sixteen bytes: the four words of a GUID, in order.
pub open spec fn guid_bytes(g: FGuid) -> Seq<u8> {
    u32_bytes(g.a as int) + u32_bytes(g.b as int) + u32_bytes(g.c as int) + u32_bytes(g.d as int)
}

/// What reading a GUID consumed is the encoding of the GUID read.
pub proof fn lemma_guid_layout(b: Seq<u8>, p: int)
    ensures
        parse_guid(b, p) matches Ok((g, q)) ==> p + 16 == q <= b.len() && b.subrange(p, q)
            == guid_bytes(g),
{
    if 0 <= p && p + 16 <= b.len() {
        lemma_u32_digits(b.subrange(p, p + 4));
        lemma_u32_digits(b.subrange(p + 4, p + 8));
        lemma_u32_digits(b.subrange(p + 8, p + 12));
        lemma_u32_digits(b.subrange(p + 12, p + 16));
        assert(b.subrange(p, p + 16) =~= b.subrange(p, p + 4) + b.subrange(p + 4, p + 8)
            + b.subrange(p + 8, p + 12) + b.subrange(p + 12, p + 16));
    }
}

/// A record type whose bytes can be written back from the value read.
pub trait Layout: UESerializable {
    /// The bytes of a record.
    spec fn encode(v: Self::V) -> Seq<u8>;

    /// Whether a record can be written at all (its lengths fit their fields).
    spec fn encodable(v: Self::V) -> bool;

    /// What reading a record consumed is the encoding of the record read.
    proof fn lemma_layout(b: Seq<u8>, p: int)
        ensures
            Self::parse(b, p) matches Ok((v, q)) ==> p <= q <= b.len() && b.subrange(p, q)
                == Self::encode(v),
    ;

    /// Reading a record where its encoding stands gives it back.
    proof fn lemma_read_back(b: Seq<u8>, p: int, v: Self::V)
        requires
            Self::encodable(v),
            holds_at(b, p, Self::encode(v)),
        ensures
            Self::parse(b, p) == Ok::<(Self::V, int), UpkError>((v, p + Self::encode(v).len())),
    ;
}

impl Layout for FGenerationInfo {
    open spec fn encode(v: FGenerationInfo) -> Seq<u8> {
        i32_bytes(v.export_count) + i32_bytes(v.name_count) + i32_bytes(v.net_object_count)
    }

    open spec fn encodable(v: FGenerationInfo) -> bool {
        true
    }

    proof fn lemma_read_back(b: Seq<u8>, p: int, v: FGenerationInfo) {
        let e = Self::encode(v);
        lemma_split(b, p, i32_bytes(v.export_count) + i32_bytes(v.name_count), i32_bytes(v.net_object_count));
        lemma_split(b, p, i32_bytes(v.export_count), i32_bytes(v.name_count));
        lemma_i32_read_back(b, p, v.export_count);
        lemma_i32_read_back(b, p + 4, v.name_count);
        lemma_i32_read_back(b, p + 8, v.net_object_count);
    }

    proof fn lemma_layout(b: Seq<u8>, p: int) {
        lemma_i32_layout(b, p);
        lemma_i32_layout(b, p + 4);
        lemma_i32_layout(b, p + 8);
        if 0 <= p && p + 12 <= b.len() {
            assert(b.subrange(p, p + 12) =~= b.subrange(p, p + 4) + b.subrange(p + 4, p + 8)
                + b.subrange(p + 8, p + 12));
        }
    }
}

impl Layout for FCompressedChunk {
    open spec fn encode(v: FCompressedChunk) -> Seq<u8> {
        i64_bytes(v.uncompressed_offset as i64) + i32_bytes(v.uncompressed_size) + i64_bytes(
            v.compressed_offset as i64,
        ) + i32_bytes(v.compressed_size)
    }

    open spec fn encodable(v: FCompressedChunk) -> bool {
        true
    }

    proof fn lemma_read_back(b: Seq<u8>, p: int, v: FCompressedChunk) {
        let a = i64_bytes(v.uncompressed_offset as i64);
        let c = i32_bytes(v.uncompressed_size);
        let d = i64_bytes(v.compressed_offset as i64);
        let f = i32_bytes(v.compressed_size);
        lemma_split(b, p, a + c + d, f);
        lemma_split(b, p, a + c, d);
        lemma_split(b, p, a, c);
        lemma_i64_read_back(b, p, v.uncompressed_offset as i64);
        lemma_i32_read_back(b, p + 8, v.uncompressed_size);
        lemma_i64_read_back(b, p + 12, v.compressed_offset as i64);
        lemma_i32_read_back(b, p + 20, v.compressed_size);
    }

    #[verifier::spinoff_prover]
    #[verifier::rlimit(50)]
    proof fn lemma_layout(b: Seq<u8>, p: int) {
        lemma_i64_layout(b, p);
        lemma_i32_layout(b, p + 8);
        lemma_i64_layout(b, p + 12);
        lemma_i32_layout(b, p + 20);
        if 0 <= p && p + 24 <= b.len() {
            assert(b.subrange(p, p + 24) =~= b.subrange(p, p + 8) + b.subrange(p + 8, p + 12)
                + b.subrange(p + 12, p + 20) + b.subrange(p + 20, p + 24));
        }
    }
}

impl Layout for i32 {
    open spec fn encode(v: i32) -> Seq<u8> {
        i32_bytes(v)
    }

    open spec fn encodable(v: i32) -> bool {
        true
    }

    proof fn lemma_read_back(b: Seq<u8>, p: int, v: i32) {
        lemma_i32_read_back(b, p, v);
    }

    proof fn lemma_layout(b: Seq<u8>, p: int) {
        lemma_i32_layout(b, p);
    }
}

impl Layout for String {
    open spec fn encode(v: Seq<char>) -> Seq<u8> {
        fstring_bytes(v)
    }

    open spec fn encodable(v: Seq<char>) -> bool {
        encode_utf8(v).len() <= i32::MAX
    }

    proof fn lemma_read_back(b: Seq<u8>, p: int, v: Seq<char>) {
        lemma_fstring_read_back(b, p, v);
    }

    proof fn lemma_layout(b: Seq<u8>, p: int) {
        lemma_fstring_layout(b, p);
    }
}

/// The records of `s`, one after another.
pub open spec fn items_bytes<T: Layout>(s: Seq<T::V>) -> Seq<u8>
    decreases s.len(),
{
    if s.len() == 0 {
        Seq::empty()
    } else {
        items_bytes::<T>(s.drop_last()) + T::encode(s.last())
    }
}

/// A signed 32-bit count, then the records of `s`.
pub open spec fn array_bytes<T: Layout>(s: Seq<T::V>) -> Seq<u8> {
    i32_bytes(s.len() as i32) + items_bytes::<T>(s)
}

/// Reading a GUID where its encoding stands gives it back.
pub proof fn lemma_guid_read_back(b: Seq<u8>, p: int, g: FGuid)
    requires
        holds_at(b, p, guid_bytes(g)),
    ensures
        parse_guid(b, p) == Ok::<(FGuid, int), UpkError>((g, p + 16)),
{
    reveal(holds_at);
    let (a, c, d, f) = (
        u32_bytes(g.a as int),
        u32_bytes(g.b as int),
        u32_bytes(g.c as int),
        u32_bytes(g.d as int),
    );
    lemma_split(b, p, a + c + d, f);
    lemma_split(b, p, a + c, d);
    lemma_split(b, p, a, c);
    lemma_u32_value(g.a as int);
    lemma_u32_value(g.b as int);
    lemma_u32_value(g.c as int);
    lemma_u32_value(g.d as int);
}

/// Every record of `s` can be written.
pub open spec fn all_encodable<T: Layout>(s: Seq<T::V>) -> bool {
    forall|i: int| 0 <= i < s.len() ==> T::encodable(#[trigger] s[i])
}

/// Reading records where their encodings stand gives them back.
pub proof fn lemma_items_read_back<T: Layout>(b: Seq<u8>, p: int, s: Seq<T::V>)
    requires
        all_encodable::<T>(s),
        holds_at(b, p, items_bytes::<T>(s)),
    ensures
        parse_items::<T>(b, p, s.len() as int) == Ok::<(Seq<T::V>, int), UpkError>(
            (s, p + items_bytes::<T>(s).len()),
        ),
    decreases s.len(),
{
    if s.len() == 0 {
        assert(s =~= Seq::<T::V>::empty());
    } else {
        let init = s.drop_last();
        lemma_split(b, p, items_bytes::<T>(init), T::encode(s.last()));
        assert(all_encodable::<T>(init));
        lemma_items_read_back::<T>(b, p, init);
        T::lemma_read_back(b, p + items_bytes::<T>(init).len(), s.last());
        assert(init.push(s.last()) =~= s);
    }
}

/// Reading a length-prefixed array where its encoding stands gives it back.
pub proof fn lemma_array_read_back<T: Layout>(b: Seq<u8>, p: int, s: Seq<T::V>)
    requires
        s.len() <= i32::MAX,
        all_encodable::<T>(s),
        holds_at(b, p, array_bytes::<T>(s)),
    ensures
        parse_array::<T>(b, p) == Ok::<(Seq<T::V>, int), UpkError>(
            (s, p + array_bytes::<T>(s).len()),
        ),
{
    lemma_split(b, p, i32_bytes(s.len() as i32), items_bytes::<T>(s));
    lemma_i32_read_back(b, p, s.len() as i32);
    lemma_items_read_back::<T>(b, p + 4, s);
}

/// What reading `n` records consumed is the encoding of the records read.
pub proof fn lemma_items_layout<T: Layout>(b: Seq<u8>, p: int, n: int)
    requires
        0 <= p <= b.len(),
    ensures
        parse_items::<T>(b, p, n) matches Ok((s, q)) ==> p <= q <= b.len() && s.len() == (if n < 0 {
            0
        } else {
            n
        }) && b.subrange(p, q) == items_bytes::<T>(s),
    decreases n,
{
    if n <= 0 {
        assert(b.subrange(p, p) =~= Seq::<u8>::empty());
    } else {
        lemma_items_layout::<T>(b, p, n - 1);
        match parse_items::<T>(b, p, n - 1) {
            Ok((s, q)) => {
                T::lemma_layout(b, q);
                match T::parse(b, q) {
                    Ok((x, r)) => {
                        assert(s.push(x).drop_last() =~= s);
                        assert(b.subrange(p, r) =~= b.subrange(p, q) + b.subrange(q, r));
                    },
                    Err(_) => {},
                }
            },
            Err(_) => {},
        }
    }
}

/// What reading a length-prefixed array consumed is the encoding of the
/// records read.
pub proof fn lemma_array_layout<T: Layout>(b: Seq<u8>, p: int)
    ensures
        parse_array::<T>(b, p) matches Ok((s, q)) ==> p + 4 <= q <= b.len() && b.subrange(p, q)
            == array_bytes::<T>(s),
{
    lemma_i32_layout(b, p);
    match parse_i32(b, p) {
        Ok((n, q)) => {
            if n >= 0 {
                lemma_items_layout::<T>(b, q, n as int);
                match parse_items::<T>(b, q, n as int) {
                    Ok((s, r)) => {
                        assert(s.len() as i32 == n);
                        assert(b.subrange(p, r) =~= b.subrange(p, q) + b.subrange(q, r));
                    },
                    Err(_) => {},
                }
            }
        },
        Err(_) => {},
    }
}

/// A package header written back from its fields: `flags` is the on-disk
/// compression word, and `reserved`, `gap` and `skipped` are the bytes that
/// reading passes over without keeping (16 reserved bytes, 4 more after the
/// chunk table, and the records of unknown kind).
pub open spec fn summary_bytes(
    m: SummaryModel,
    flags: u32,
    reserved: Seq<u8>,
    gap: Seq<u8>,
    skipped: Seq<u8>,
) -> Seq<u8> {
    u32_bytes(m.magic as int)
        + u16_bytes(m.file_version as int)
        + u16_bytes(m.licensee_version as int)
        + i32_bytes(m.header_size)
        + fstring_bytes(m.package_group)
        + u32_bytes(m.package_flags as int)
        + i32_bytes(m.name_count)
        + i32_bytes(m.name_offset)
        + i32_bytes(m.export_count)
        + i32_bytes(m.export_offset)
        + i32_bytes(m.import_count)
        + i32_bytes(m.import_offset)
        + i32_bytes(m.depends_offset)
        + reserved
        + guid_bytes(m.guid)
        + array_bytes::<FGenerationInfo>(m.generations)
        + i32_bytes(m.engine_version)
        + i32_bytes(m.cooker_version)
        + u32_bytes(flags as int)
        + array_bytes::<FCompressedChunk>(m.compressed_chunks)
        + gap
        + array_bytes::<String>(m.additional_packages_to_cook)
        + i32_bytes(m.unknown_structs)
        + skipped
        + i32_bytes(m.garbage_size)
        + i32_bytes(m.compression_chunkinfo_offset)
        + i32_bytes(m.last_block_size)
}

/// Reading a header and writing its fields back gives the bytes that were
/// read: every field consumed is reproduced, given the compression word and
/// the bytes that reading passes over.
#[verifier::spinoff_prover]
pub proof fn lemma_summary_round_trip(b: Seq<u8>, p: int)
    ensures
        parse_summary(b, p) matches Ok((m, q)) ==> exists|
            flags: u32,
            reserved: Seq<u8>,
            gap: Seq<u8>,
            skipped: Seq<u8>,
        |
            reserved.len() == 16 && gap.len() == 4 && compression_flags_of(flags)
                == m.compression_flags && #[trigger] summary_bytes(m, flags, reserved, gap, skipped)
                == b.subrange(p, q),
{
    reveal(parse_summary);
    if parse_summary(b, p) is Ok {
        let r0 = parse_u32(b, p);
        lemma_u32_layout(b, p);
        assert(r0 is Ok);
        let (magic, at1) = r0->Ok_0;
        assert(magic == PACKAGE_MAGIC);
        let acc1 = u32_bytes(magic as int);
        assert(b.subrange(p, at1) == acc1);
        let r1 = parse_u16(b, at1);
        lemma_u16_layout(b, at1);
        assert(r1 is Ok);
        let (file_version, at2) = r1->Ok_0;
        lemma_subrange_concat(b, p, at1, at2);
        let acc2 = acc1 + u16_bytes(file_version as int);
        assert(b.subrange(p, at2) == acc2);
        let r2 = parse_u16(b, at2);
        lemma_u16_layout(b, at2);
        assert(r2 is Ok);
        let (licensee_version, at3) = r2->Ok_0;
        lemma_subrange_concat(b, p, at2, at3);
        let acc3 = acc2 + u16_bytes(licensee_version as int);
        assert(b.subrange(p, at3) == acc3);
        let r3 = parse_i32(b, at3);
        lemma_i32_layout(b, at3);
        assert(r3 is Ok);
        let (header_size, at4) = r3->Ok_0;
        lemma_subrange_concat(b, p, at3, at4);
        let acc4 = acc3 + i32_bytes(header_size);
        assert(b.subrange(p, at4) == acc4);
        let r4 = parse_fstring(b, at4);
        lemma_fstring_layout(b, at4);
        assert(r4 is Ok);
        let (package_group, at5) = r4->Ok_0;
        lemma_subrange_concat(b, p, at4, at5);
        let acc5 = acc4 + fstring_bytes(package_group);
        assert(b.subrange(p, at5) == acc5);
        let r5 = parse_u32(b, at5);
        lemma_u32_layout(b, at5);
        assert(r5 is Ok);
        let (package_flags, at6) = r5->Ok_0;
        lemma_subrange_concat(b, p, at5, at6);
        let acc6 = acc5 + u32_bytes(package_flags as int);
        assert(b.subrange(p, at6) == acc6);
        let r6 = parse_i32(b, at6);
        lemma_i32_layout(b, at6);
        assert(r6 is Ok);
        let (name_count, at7) = r6->Ok_0;
        lemma_subrange_concat(b, p, at6, at7);
        let acc7 = acc6 + i32_bytes(name_count);
        assert(b.subrange(p, at7) == acc7);
        let r7 = parse_i32(b, at7);
        lemma_i32_layout(b, at7);
        assert(r7 is Ok);
        let (name_offset, at8) = r7->Ok_0;
        lemma_subrange_concat(b, p, at7, at8);
        let acc8 = acc7 + i32_bytes(name_offset);
        assert(b.subrange(p, at8) == acc8);
        let r8 = parse_i32(b, at8);
        lemma_i32_layout(b, at8);
        assert(r8 is Ok);
        let (export_count, at9) = r8->Ok_0;
        lemma_subrange_concat(b, p, at8, at9);
        let acc9 = acc8 + i32_bytes(export_count);
        assert(b.subrange(p, at9) == acc9);
        let r9 = parse_i32(b, at9);
        lemma_i32_layout(b, at9);
        assert(r9 is Ok);
        let (export_offset, at10) = r9->Ok_0;
        lemma_subrange_concat(b, p, at9, at10);
        let acc10 = acc9 + i32_bytes(export_offset);
        assert(b.subrange(p, at10) == acc10);
        let r10 = parse_i32(b, at10);
        lemma_i32_layout(b, at10);
        assert(r10 is Ok);
        let (import_count, at11) = r10->Ok_0;
        lemma_subrange_concat(b, p, at10, at11);
        let acc11 = acc10 + i32_bytes(import_count);
        assert(b.subrange(p, at11) == acc11);
        let r11 = parse_i32(b, at11);
        lemma_i32_layout(b, at11);
        assert(r11 is Ok);
        let (import_offset, at12) = r11->Ok_0;
        lemma_subrange_concat(b, p, at11, at12);
        let acc12 = acc11 + i32_bytes(import_offset);
        assert(b.subrange(p, at12) == acc12);
        let r12 = parse_i32(b, at12);
        lemma_i32_layout(b, at12);
        assert(r12 is Ok);
        let (depends_offset, at13) = r12->Ok_0;
        lemma_subrange_concat(b, p, at12, at13);
        let acc13 = acc12 + i32_bytes(depends_offset);
        assert(b.subrange(p, at13) == acc13);
        let r13 = parse_skip(b, at13, 16);
        assert(r13 is Ok);
        let at14 = r13->Ok_0;
        lemma_subrange_concat(b, p, at13, at14);
        let acc14 = acc13 + b.subrange(at13, at14);
        assert(b.subrange(p, at14) == acc14);
        let r14 = parse_guid(b, at14);
        lemma_guid_layout(b, at14);
        assert(r14 is Ok);
        let (guid, at15) = r14->Ok_0;
        lemma_subrange_concat(b, p, at14, at15);
        let acc15 = acc14 + guid_bytes(guid);
        assert(b.subrange(p, at15) == acc15);
        let r15 = parse_array::<FGenerationInfo>(b, at15);
        lemma_array_layout::<FGenerationInfo>(b, at15);
        assert(r15 is Ok);
        let (generations, at16) = r15->Ok_0;
        lemma_subrange_concat(b, p, at15, at16);
        let acc16 = acc15 + array_bytes::<FGenerationInfo>(generations);
        assert(b.subrange(p, at16) == acc16);
        let r16 = parse_i32(b, at16);
        lemma_i32_layout(b, at16);
        assert(r16 is Ok);
        let (engine_version, at17) = r16->Ok_0;
        lemma_subrange_concat(b, p, at16, at17);
        let acc17 = acc16 + i32_bytes(engine_version);
        assert(b.subrange(p, at17) == acc17);
        let r17 = parse_i32(b, at17);
        lemma_i32_layout(b, at17);
        assert(r17 is Ok);
        let (cooker_version, at18) = r17->Ok_0;
        lemma_subrange_concat(b, p, at17, at18);
        let acc18 = acc17 + i32_bytes(cooker_version);
        assert(b.subrange(p, at18) == acc18);
        let r18 = parse_u32(b, at18);
        lemma_u32_layout(b, at18);
        assert(r18 is Ok);
        let (flags, at19) = r18->Ok_0;
        lemma_subrange_concat(b, p, at18, at19);
        let acc19 = acc18 + u32_bytes(flags as int);
        assert(b.subrange(p, at19) == acc19);
        let r19 = parse_array::<FCompressedChunk>(b, at19);
        lemma_array_layout::<FCompressedChunk>(b, at19);
        assert(r19 is Ok);
        let (compressed_chunks, at20) = r19->Ok_0;
        lemma_subrange_concat(b, p, at19, at20);
        let acc20 = acc19 + array_bytes::<FCompressedChunk>(compressed_chunks);
        assert(b.subrange(p, at20) == acc20);
        let r20 = parse_skip(b, at20, 4);
        assert(r20 is Ok);
        let at21 = r20->Ok_0;
        lemma_subrange_concat(b, p, at20, at21);
        let acc21 = acc20 + b.subrange(at20, at21);
        assert(b.subrange(p, at21) == acc21);
        let r21 = parse_array::<String>(b, at21);
        lemma_array_layout::<String>(b, at21);
        assert(r21 is Ok);
        let (additional_packages_to_cook, at22) = r21->Ok_0;
        lemma_subrange_concat(b, p, at21, at22);
        let acc22 = acc21 + array_bytes::<String>(additional_packages_to_cook);
        assert(b.subrange(p, at22) == acc22);
        let r22 = parse_i32(b, at22);
        lemma_i32_layout(b, at22);
        assert(r22 is Ok);
        let (unknown_structs, at23) = r22->Ok_0;
        lemma_subrange_concat(b, p, at22, at23);
        let acc23 = acc22 + i32_bytes(unknown_structs);
        assert(b.subrange(p, at23) == acc23);
        let r23 = parse_skip_unknown_structs(b, at23, unknown_structs as int);
        lemma_skip_unknown_bounds(b, at23, unknown_structs as int);
        assert(r23 is Ok);
        let at24 = r23->Ok_0;
        lemma_subrange_concat(b, p, at23, at24);
        let acc24 = acc23 + b.subrange(at23, at24);
        assert(b.subrange(p, at24) == acc24);
        let r24 = parse_i32(b, at24);
        lemma_i32_layout(b, at24);
        assert(r24 is Ok);
        let (garbage_size, at25) = r24->Ok_0;
        lemma_subrange_concat(b, p, at24, at25);
        let acc25 = acc24 + i32_bytes(garbage_size);
        assert(b.subrange(p, at25) == acc25);
        let r25 = parse_i32(b, at25);
        lemma_i32_layout(b, at25);
        assert(r25 is Ok);
        let (compression_chunkinfo_offset, at26) = r25->Ok_0;
        lemma_subrange_concat(b, p, at25, at26);
        let acc26 = acc25 + i32_bytes(compression_chunkinfo_offset);
        assert(b.subrange(p, at26) == acc26);
        let r26 = parse_i32(b, at26);
        lemma_i32_layout(b, at26);
        assert(r26 is Ok);
        let (last_block_size, at27) = r26->Ok_0;
        lemma_subrange_concat(b, p, at26, at27);
        let acc27 = acc26 + i32_bytes(last_block_size);
        assert(b.subrange(p, at27) == acc27);
        let m = parse_summary(b, p)->Ok_0.0;
        let q = parse_summary(b, p)->Ok_0.1;
        assert(q == at27);
        assert(m == (SummaryModel { magic, file_version, licensee_version, header_size, package_group, package_flags, name_count, name_offset, export_count, export_offset, import_count, import_offset, depends_offset, guid, generations, engine_version, cooker_version, compression_flags: compression_flags_of(flags), compressed_chunks, additional_packages_to_cook, unknown_structs, garbage_size, compression_chunkinfo_offset, last_block_size }));
        let reserved = b.subrange(at13, at14);
        let gap = b.subrange(at20, at21);
        let skipped = b.subrange(at23, at24);
        assert(summary_bytes(m, flags, reserved, gap, skipped) == b.subrange(p, q));
    }
}

/// Reading the bytes of a valid header gives that header back, and stops
/// right after them whatever follows: the magic is right, the compression
/// word decodes to the header's flags, every string and array length fits its
/// field, and there are no records of unknown kind to pass over.
#[verifier::spinoff_prover]
#[verifier::rlimit(100)]
pub proof fn lemma_summary_read_back(
    b: Seq<u8>,
    p: int,
    m: SummaryModel,
    flags: u32,
    reserved: Seq<u8>,
    gap: Seq<u8>,
)
    requires
        m.magic == PACKAGE_MAGIC,
        compression_flags_of(flags) == m.compression_flags,
        m.unknown_structs == 0,
        reserved.len() == 16,
        gap.len() == 4,
        encode_utf8(m.package_group).len() <= i32::MAX,
        m.generations.len() <= i32::MAX,
        m.compressed_chunks.len() <= i32::MAX,
        m.additional_packages_to_cook.len() <= i32::MAX,
        all_encodable::<String>(m.additional_packages_to_cook),
        holds_at(b, p, summary_bytes(m, flags, reserved, gap, Seq::<u8>::empty())),
    ensures
        parse_summary(b, p) == Ok::<(SummaryModel, int), UpkError>(
            (m, p + summary_bytes(m, flags, reserved, gap, Seq::<u8>::empty()).len()),
        ),
{
    let e = summary_bytes(m, flags, reserved, gap, Seq::<u8>::empty());
    let acc1 = u32_bytes(m.magic as int);
    let acc2 = acc1 + u16_bytes(m.file_version as int);
    let acc3 = acc2 + u16_bytes(m.licensee_version as int);
    let acc4 = acc3 + i32_bytes(m.header_size);
    let acc5 = acc4 + fstring_bytes(m.package_group);
    let acc6 = acc5 + u32_bytes(m.package_flags as int);
    let acc7 = acc6 + i32_bytes(m.name_count);
    let acc8 = acc7 + i32_bytes(m.name_offset);
    let acc9 = acc8 + i32_bytes(m.export_count);
    let acc10 = acc9 + i32_bytes(m.export_offset);
    let acc11 = acc10 + i32_bytes(m.import_count);
    let acc12 = acc11 + i32_bytes(m.import_offset);
    let acc13 = acc12 + i32_bytes(m.depends_offset);
    let acc14 = acc13 + reserved;
    let acc15 = acc14 + guid_bytes(m.guid);
    let acc16 = acc15 + array_bytes::<FGenerationInfo>(m.generations);
    let acc17 = acc16 + i32_bytes(m.engine_version);
    let acc18 = acc17 + i32_bytes(m.cooker_version);
    let acc19 = acc18 + u32_bytes(flags as int);
    let acc20 = acc19 + array_bytes::<FCompressedChunk>(m.compressed_chunks);
    let acc21 = acc20 + gap;
    let acc22 = acc21 + array_bytes::<String>(m.additional_packages_to_cook);
    let acc23 = acc22 + i32_bytes(m.unknown_structs);
    let acc24 = acc23 + Seq::<u8>::empty();
    let acc25 = acc24 + i32_bytes(m.garbage_size);
    let acc26 = acc25 + i32_bytes(m.compression_chunkinfo_offset);
    let acc27 = acc26 + i32_bytes(m.last_block_size);
    assert(acc27 == e);
    lemma_split(b, p, acc26, i32_bytes(m.last_block_size));
    lemma_split(b, p, acc25, i32_bytes(m.compression_chunkinfo_offset));
    lemma_split(b, p, acc24, i32_bytes(m.garbage_size));
    lemma_split(b, p, acc23, Seq::<u8>::empty());
    lemma_split(b, p, acc22, i32_bytes(m.unknown_structs));
    lemma_split(b, p, acc21, array_bytes::<String>(m.additional_packages_to_cook));
    lemma_split(b, p, acc20, gap);
    lemma_split(b, p, acc19, array_bytes::<FCompressedChunk>(m.compressed_chunks));
    lemma_split(b, p, acc18, u32_bytes(flags as int));
    lemma_split(b, p, acc17, i32_bytes(m.cooker_version));
    lemma_split(b, p, acc16, i32_bytes(m.engine_version));
    lemma_split(b, p, acc15, array_bytes::<FGenerationInfo>(m.generations));
    lemma_split(b, p, acc14, guid_bytes(m.guid));
    lemma_split(b, p, acc13, reserved);
    lemma_split(b, p, acc12, i32_bytes(m.depends_offset));
    lemma_split(b, p, acc11, i32_bytes(m.import_offset));
    lemma_split(b, p, acc10, i32_bytes(m.import_count));
    lemma_split(b, p, acc9, i32_bytes(m.export_offset));
    lemma_split(b, p, acc8, i32_bytes(m.export_count));
    lemma_split(b, p, acc7, i32_bytes(m.name_offset));
    lemma_split(b, p, acc6, i32_bytes(m.name_count));
    lemma_split(b, p, acc5, u32_bytes(m.package_flags as int));
    lemma_split(b, p, acc4, fstring_bytes(m.package_group));
    lemma_split(b, p, acc3, i32_bytes(m.header_size));
    lemma_split(b, p, acc2, u16_bytes(m.licensee_version as int));
    lemma_split(b, p, acc1, u16_bytes(m.file_version as int));
    let at0 = p;
    let at1 = p + acc1.len();
    let at2 = p + acc2.len();
    let at3 = p + acc3.len();
    let at4 = p + acc4.len();
    let at5 = p + acc5.len();
    let at6 = p + acc6.len();
    let at7 = p + acc7.len();
    let at8 = p + acc8.len();
    let at9 = p + acc9.len();
    let at10 = p + acc10.len();
    let at11 = p + acc11.len();
    let at12 = p + acc12.len();
    let at13 = p + acc13.len();
    let at14 = p + acc14.len();
    let at15 = p + acc15.len();
    let at16 = p + acc16.len();
    let at17 = p + acc17.len();
    let at18 = p + acc18.len();
    let at19 = p + acc19.len();
    let at20 = p + acc20.len();
    let at21 = p + acc21.len();
    let at22 = p + acc22.len();
    let at23 = p + acc23.len();
    let at24 = p + acc24.len();
    let at25 = p + acc25.len();
    let at26 = p + acc26.len();
    let at27 = p + acc27.len();
    lemma_u32_read_back(b, at0, m.magic);
    lemma_u16_read_back(b, at1, m.file_version);
    lemma_u16_read_back(b, at2, m.licensee_version);
    lemma_i32_read_back(b, at3, m.header_size);
    lemma_fstring_read_back(b, at4, m.package_group);
    lemma_u32_read_back(b, at5, m.package_flags);
    lemma_i32_read_back(b, at6, m.name_count);
    lemma_i32_read_back(b, at7, m.name_offset);
    lemma_i32_read_back(b, at8, m.export_count);
    lemma_i32_read_back(b, at9, m.export_offset);
    lemma_i32_read_back(b, at10, m.import_count);
    lemma_i32_read_back(b, at11, m.import_offset);
    lemma_i32_read_back(b, at12, m.depends_offset);
    lemma_guid_read_back(b, at14, m.guid);
    lemma_array_read_back::<FGenerationInfo>(b, at15, m.generations);
    lemma_i32_read_back(b, at16, m.engine_version);
    lemma_i32_read_back(b, at17, m.cooker_version);
    lemma_u32_read_back(b, at18, flags);
    lemma_array_read_back::<FCompressedChunk>(b, at19, m.compressed_chunks);
    lemma_array_read_back::<String>(b, at21, m.additional_packages_to_cook);
    lemma_i32_read_back(b, at22, m.unknown_structs);
    lemma_i32_read_back(b, at24, m.garbage_size);
    lemma_i32_read_back(b, at25, m.compression_chunkinfo_offset);
    lemma_i32_read_back(b, at26, m.last_block_size);
    lemma_holds_at_bounds(b, at13, reserved);
    lemma_holds_at_bounds(b, at20, gap);
    lemma_holds_at_bounds(b, at23, Seq::<u8>::empty());
    assert(all_encodable::<FGenerationInfo>(m.generations));
    assert(all_encodable::<FCompressedChunk>(m.compressed_chunks));
    assert(parse_u32(b, at0) == Ok::<(u32, int), UpkError>((m.magic, at1)));
    assert(parse_u16(b, at1) == Ok::<(u16, int), UpkError>((m.file_version, at2)));
    assert(parse_u16(b, at2) == Ok::<(u16, int), UpkError>((m.licensee_version, at3)));
    assert(parse_i32(b, at3) == Ok::<(i32, int), UpkError>((m.header_size, at4)));
    assert(parse_fstring(b, at4) == Ok::<(Seq<char>, int), UpkError>((m.package_group, at5)));
    assert(parse_u32(b, at5) == Ok::<(u32, int), UpkError>((m.package_flags, at6)));
    assert(parse_i32(b, at6) == Ok::<(i32, int), UpkError>((m.name_count, at7)));
    assert(parse_i32(b, at7) == Ok::<(i32, int), UpkError>((m.name_offset, at8)));
    assert(parse_i32(b, at8) == Ok::<(i32, int), UpkError>((m.export_count, at9)));
    assert(parse_i32(b, at9) == Ok::<(i32, int), UpkError>((m.export_offset, at10)));
    assert(parse_i32(b, at10) == Ok::<(i32, int), UpkError>((m.import_count, at11)));
    assert(parse_i32(b, at11) == Ok::<(i32, int), UpkError>((m.import_offset, at12)));
    assert(parse_i32(b, at12) == Ok::<(i32, int), UpkError>((m.depends_offset, at13)));
    assert(parse_skip(b, at13, 16) == Ok::<int, UpkError>(at14));
    assert(parse_guid(b, at14) == Ok::<(FGuid, int), UpkError>((m.guid, at15)));
    assert(parse_array::<FGenerationInfo>(b, at15) == Ok::<(Seq<FGenerationInfo>, int), UpkError>((m.generations, at16)));
    assert(parse_i32(b, at16) == Ok::<(i32, int), UpkError>((m.engine_version, at17)));
    assert(parse_i32(b, at17) == Ok::<(i32, int), UpkError>((m.cooker_version, at18)));
    assert(parse_u32(b, at18) == Ok::<(u32, int), UpkError>((flags, at19)));
    assert(parse_array::<FCompressedChunk>(b, at19) == Ok::<(Seq<FCompressedChunk>, int), UpkError>((m.compressed_chunks, at20)));
    assert(parse_skip(b, at20, 4) == Ok::<int, UpkError>(at21));
    assert(parse_array::<String>(b, at21) == Ok::<(Seq<Seq<char>>, int), UpkError>((m.additional_packages_to_cook, at22)));
    assert(parse_i32(b, at22) == Ok::<(i32, int), UpkError>((m.unknown_structs, at23)));
    assert(parse_skip_unknown_structs(b, at23, m.unknown_structs as int) == Ok::<int, UpkError>(at24));
    assert(parse_i32(b, at24) == Ok::<(i32, int), UpkError>((m.garbage_size, at25)));
    assert(parse_i32(b, at25) == Ok::<(i32, int), UpkError>((m.compression_chunkinfo_offset, at26)));
    assert(parse_i32(b, at26) == Ok::<(i32, int), UpkError>((m.last_block_size, at27)));
    assert(m == (SummaryModel { magic: m.magic, file_version: m.file_version, licensee_version: m.licensee_version, header_size: m.header_size, package_group: m.package_group, package_flags: m.package_flags, name_count: m.name_count, name_offset: m.name_offset, export_count: m.export_count, export_offset: m.export_offset, import_count: m.import_count, import_offset: m.import_offset, depends_offset: m.depends_offset, guid: m.guid, generations: m.generations, engine_version: m.engine_version, cooker_version: m.cooker_version, compression_flags: compression_flags_of(flags), compressed_chunks: m.compressed_chunks, additional_packages_to_cook: m.additional_packages_to_cook, unknown_structs: m.unknown_structs, garbage_size: m.garbage_size, compression_chunkinfo_offset: m.compression_chunkinfo_offset, last_block_size: m.last_block_size }));
    reveal(parse_summary);
}

proof fn lemma_skip_unknown_bounds(b: Seq<u8>, p: int, n: int)
    requires
        0 <= p <= b.len(),
    ensures
        parse_skip_unknown_structs(b, p, n) matches Ok(q) ==> p <= q <= b.len(),
    decreases n,
{
    if n > 0 {
        lemma_skip_unknown_bounds(b, p, n - 1);
        match parse_skip_unknown_structs(b, p, n - 1) {
            Ok(q) => {
                match parse_skip(b, q, 20) {
                    Ok(q1) => {
                        lemma_array_layout::<i32>(b, q1);
                    },
                    Err(_) => {},
                }
            },
            Err(_) => {},
        }
    }
}

proof fn lemma_subrange_concat(b: Seq<u8>, x: int, y: int, z: int)
    requires
        0 <= x <= y <= z <= b.len(),
    ensures
        b.subrange(x, z) == b.subrange(x, y) + b.subrange(y, z),
{
    assert(b.subrange(x, z) =~= b.subrange(x, y) + b.subrange(y, z));
}

} // verus!

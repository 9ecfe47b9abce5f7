//! The byte cursor that every other stage reads from and writes to, with its
//! little-endian decoding model.

use vstd::prelude::*;

use vstd::utf8::{decode_utf8, valid_utf8};

use crate::package::FGuid;
use crate::{FormatError, UpkError};

verus! {

/// Value of two little-endian bytes.
pub open spec fn le_u16(b: Seq<u8>) -> int {
    b[0] + b[1] * 0x100
}

/// Value of four little-endian bytes.
pub open spec fn le_u32(b: Seq<u8>) -> int {
    b[0] + b[1] * 0x100 + b[2] * 0x1_0000 + b[3] * 0x100_0000
}

/// Value of eight little-endian bytes.
pub open spec fn le_u64(b: Seq<u8>) -> int {
    le_u32(b.subrange(0, 4)) + le_u32(b.subrange(4, 8)) * 0x1_0000_0000
}

/// Two's complement reading of an unsigned value of `bits` bits.
pub open spec fn signed(v: int, bits: nat) -> int {
    if v < pow2_spec((bits - 1) as nat) {
        v
    } else {
        v - pow2_spec(bits)
    }
}

/// `2^n`.
pub open spec fn pow2_spec(n: nat) -> int
    decreases n,
{
    if n == 0 {
        1
    } else {
        2 * pow2_spec((n - 1) as nat)
    }
}

/// Where a seek lands before it is checked against the data.
pub enum SeekFrom {
    Start(u64),
    End(i64),
    Current(i64),
}

pub open spec fn seek_target(from: SeekFrom, pos: int, len: int) -> int {
    match from {
        SeekFrom::Start(n) => n as int,
        SeekFrom::End(d) => len + d,
        SeekFrom::Current(d) => pos + d,
    }
}

/// The `n` bytes at `p`, and the position after them.
pub open spec fn parse_bytes(b: Seq<u8>, p: int, n: int) -> Result<(Seq<u8>, int), UpkError> {
    if 0 <= p && 0 <= n && p + n <= b.len() {
        Ok((b.subrange(p, p + n), p + n))
    } else {
        Err(UpkError::Io)
    }
}

pub open spec fn parse_u8(b: Seq<u8>, p: int) -> Result<(u8, int), UpkError> {
    match parse_bytes(b, p, 1) {
        Ok((s, q)) => Ok((s[0], q)),
        Err(e) => Err(e),
    }
}

pub open spec fn parse_u16(b: Seq<u8>, p: int) -> Result<(u16, int), UpkError> {
    match parse_bytes(b, p, 2) {
        Ok((s, q)) => Ok((le_u16(s) as u16, q)),
        Err(e) => Err(e),
    }
}

pub open spec fn parse_i16(b: Seq<u8>, p: int) -> Result<(i16, int), UpkError> {
    match parse_bytes(b, p, 2) {
        Ok((s, q)) => Ok((signed(le_u16(s), 16) as i16, q)),
        Err(e) => Err(e),
    }
}

pub open spec fn parse_u32(b: Seq<u8>, p: int) -> Result<(u32, int), UpkError> {
    match parse_bytes(b, p, 4) {
        Ok((s, q)) => Ok((le_u32(s) as u32, q)),
        Err(e) => Err(e),
    }
}

pub open spec fn parse_i32(b: Seq<u8>, p: int) -> Result<(i32, int), UpkError> {
    match parse_bytes(b, p, 4) {
        Ok((s, q)) => Ok((signed(le_u32(s), 32) as i32, q)),
        Err(e) => Err(e),
    }
}

pub open spec fn parse_i64(b: Seq<u8>, p: int) -> Result<(i64, int), UpkError> {
    match parse_bytes(b, p, 8) {
        Ok((s, q)) => Ok((signed(le_u64(s), 64) as i64, q)),
        Err(e) => Err(e),
    }
}

/// `data` written over `b` from `p` on, zero-filling any gap and growing `b`
/// where the write runs past its end.
pub open spec fn place(b: Seq<u8>, p: int, data: Seq<u8>) -> Seq<u8> {
    let n = if b.len() < p + data.len() { p + data.len() } else { b.len() as int };
    Seq::new(
        n as nat,
        |i: int|
            if p <= i < p + data.len() {
                data[i - p]
            } else if i < b.len() {
                b[i]
            } else {
                0u8
            },
    )
}

/// A length-prefixed string: a signed 32-bit length, then that many UTF-8
/// bytes. Length 0 is the empty string; `i32::MIN` marks corruption; other
/// negative lengths announce UTF-16, which is not handled.
pub open spec fn parse_fstring(b: Seq<u8>, p: int) -> Result<(Seq<char>, int), UpkError> {
    match parse_i32(b, p) {
        Err(e) => Err(e),
        Ok((len, q)) => if len == 0 {
            Ok((Seq::<char>::empty(), q))
        } else if len == i32::MIN {
            Err(UpkError::Format(FormatError::CorruptString))
        } else if len < 0 {
            Err(UpkError::Format(FormatError::UnsupportedEncoding))
        } else {
            match parse_bytes(b, q, len as int) {
                Err(e) => Err(e),
                Ok((s, r)) => if valid_utf8(s) {
                    Ok((decode_utf8(s), r))
                } else {
                    Err(UpkError::Format(FormatError::InvalidUtf8))
                },
            }
        },
    }
}

/// Four unsigned 32-bit words, in the order a, b, c, d.
pub open spec fn parse_guid(b: Seq<u8>, p: int) -> Result<(FGuid, int), UpkError> {
    if 0 <= p && p + 16 <= b.len() {
        Ok(
            (
                FGuid {
                    a: le_u32(b.subrange(p, p + 4)) as u32,
                    b: le_u32(b.subrange(p + 4, p + 8)) as u32,
                    c: le_u32(b.subrange(p + 8, p + 12)) as u32,
                    d: le_u32(b.subrange(p + 12, p + 16)) as u32,
                },
                p + 16,
            ),
        )
    } else {
        Err(UpkError::Io)
    }
}

/// A cursor `p` that lies within the data `b`.
pub open spec fn cursor_ok(b: Seq<u8>, p: int) -> bool {
    0 <= p <= b.len() <= usize::MAX
}

/// The call matched the model `s` of a read: the data is untouched, and either
/// the value came with the cursor moved past it, or the modelled error came.
pub open spec fn read_matches<T>(
    before: Seq<u8>,
    after: Seq<u8>,
    after_pos: int,
    r: Result<T, UpkError>,
    s: Result<(T, int), UpkError>,
) -> bool {
    &&& after == before
    &&& match s {
        Ok((v, q)) => r == Ok::<T, UpkError>(v) && after_pos == q,
        Err(e) => r == Err::<T, UpkError>(e),
    }
}

/// A cursor over a byte buffer: typed little-endian reads, writes and seeks.
pub trait FArchive: Sized {
    /// The whole buffer.
    spec fn bytes(&self) -> Seq<u8>;

    /// The cursor.
    spec fn pos(&self) -> int;

    /// Fills `buffer` with the next `buffer.len()` bytes.
    fn read_bytes_vec(&mut self, buffer: &mut Vec<u8>) -> (r: Result<(), UpkError>)
        requires
            cursor_ok(old(self).bytes(), old(self).pos()),
        ensures
            cursor_ok(final(self).bytes(), final(self).pos()),
            final(self).bytes() == old(self).bytes(),
            final(buffer).len() == old(buffer).len(),
            match parse_bytes(old(self).bytes(), old(self).pos(), old(buffer).len() as int) {
                Ok((s, q)) => r is Ok && final(buffer)@ == s && final(self).pos() == q,
                Err(e) => r == Err::<(), UpkError>(e),
            },
    ;

    /// Writes `buf` at the cursor, over what is there and past the end if it
    /// runs that far.
    fn write_all(&mut self, buf: &[u8]) -> (r: Result<(), UpkError>)
        requires
            cursor_ok(old(self).bytes(), old(self).pos()),
            old(self).pos() + buf@.len() <= usize::MAX,
        ensures
            cursor_ok(final(self).bytes(), final(self).pos()),
            r is Ok,
            final(self).bytes() == place(old(self).bytes(), old(self).pos(), buf@),
            final(self).pos() == old(self).pos() + buf@.len(),
    ;

    /// Moves the cursor and returns where it now is; a target before the start
    /// or past the end is refused and leaves the cursor alone.
    fn seek(&mut self, from: SeekFrom) -> (r: Result<u64, UpkError>)
        requires
            cursor_ok(old(self).bytes(), old(self).pos()),
        ensures
            cursor_ok(final(self).bytes(), final(self).pos()),
            final(self).bytes() == old(self).bytes(),
            ({
                let t = seek_target(from, old(self).pos(), old(self).bytes().len() as int);
                if 0 <= t <= old(self).bytes().len() {
                    r == Ok::<u64, UpkError>(t as u64) && final(self).pos() == t
                } else {
                    r == Err::<u64, UpkError>(UpkError::Io) && final(self).pos() == old(self).pos()
                }
            }),
    ;

    /// The size of the whole buffer.
    fn len(&self) -> (r: usize)
        requires
            cursor_ok(self.bytes(), self.pos()),
        ensures
            r == self.bytes().len(),
    ;

    fn read_u8(&mut self) -> (r: Result<u8, UpkError>)
        requires
            cursor_ok(old(self).bytes(), old(self).pos()),
        ensures
            cursor_ok(final(self).bytes(), final(self).pos()),
            read_matches(old(self).bytes(), final(self).bytes(), final(self).pos(), r, parse_u8(old(self).bytes(), old(self).pos())),
    {
        let mut buf: Vec<u8> = vec![0u8; 1];
        match self.read_bytes_vec(&mut buf) {
            Ok(()) => {},
            Err(e) => {
                return Err(e);
            },
        }
        Ok(buf[0])
    }

    fn read_u16(&mut self) -> (r: Result<u16, UpkError>)
        requires
            cursor_ok(old(self).bytes(), old(self).pos()),
        ensures
            cursor_ok(final(self).bytes(), final(self).pos()),
            read_matches(old(self).bytes(), final(self).bytes(), final(self).pos(), r, parse_u16(old(self).bytes(), old(self).pos())),
    {
        let mut buf: Vec<u8> = vec![0u8; 2];
        match self.read_bytes_vec(&mut buf) {
            Ok(()) => {},
            Err(e) => {
                return Err(e);
            },
        }
        Ok(buf[0] as u16 + (buf[1] as u16) * 0x100)
    }

    fn read_i16(&mut self) -> (r: Result<i16, UpkError>)
        requires
            cursor_ok(old(self).bytes(), old(self).pos()),
        ensures
            cursor_ok(final(self).bytes(), final(self).pos()),
            read_matches(old(self).bytes(), final(self).bytes(), final(self).pos(), r, parse_i16(old(self).bytes(), old(self).pos())),
    {
        let mut buf: Vec<u8> = vec![0u8; 2];
        match self.read_bytes_vec(&mut buf) {
            Ok(()) => {},
            Err(e) => {
                return Err(e);
            },
        }
        let u: u16 = buf[0] as u16 + (buf[1] as u16) * 0x100;
        proof {
            reveal_with_fuel(pow2_spec, 17);
        }
        if u < 0x8000 {
            Ok(u as i16)
        } else {
            Ok(((u - 0x8000) as i16) + i16::MIN)
        }
    }

    fn read_u32(&mut self) -> (r: Result<u32, UpkError>)
        requires
            cursor_ok(old(self).bytes(), old(self).pos()),
        ensures
            cursor_ok(final(self).bytes(), final(self).pos()),
            read_matches(old(self).bytes(), final(self).bytes(), final(self).pos(), r, parse_u32(old(self).bytes(), old(self).pos())),
    {
        let mut buf: Vec<u8> = vec![0u8; 4];
        match self.read_bytes_vec(&mut buf) {
            Ok(()) => {},
            Err(e) => {
                return Err(e);
            },
        }
        Ok(buf[0] as u32 + (buf[1] as u32) * 0x100 + (buf[2] as u32) * 0x1_0000 + (buf[3] as u32)
            * 0x100_0000)
    }

    fn read_i32(&mut self) -> (r: Result<i32, UpkError>)
        requires
            cursor_ok(old(self).bytes(), old(self).pos()),
        ensures
            cursor_ok(final(self).bytes(), final(self).pos()),
            read_matches(old(self).bytes(), final(self).bytes(), final(self).pos(), r, parse_i32(old(self).bytes(), old(self).pos())),
    {
        let mut buf: Vec<u8> = vec![0u8; 4];
        match self.read_bytes_vec(&mut buf) {
            Ok(()) => {},
            Err(e) => {
                return Err(e);
            },
        }
        let u: u32 = buf[0] as u32 + (buf[1] as u32) * 0x100 + (buf[2] as u32) * 0x1_0000 + (
        buf[3] as u32) * 0x100_0000;
        proof {
            reveal_with_fuel(pow2_spec, 33);
        }
        if u < 0x8000_0000 {
            Ok(u as i32)
        } else {
            Ok(((u - 0x8000_0000) as i32) + i32::MIN)
        }
    }

    #[verifier::rlimit(40)]
    fn read_i64(&mut self) -> (r: Result<i64, UpkError>)
        requires
            cursor_ok(old(self).bytes(), old(self).pos()),
        ensures
            cursor_ok(final(self).bytes(), final(self).pos()),
            read_matches(old(self).bytes(), final(self).bytes(), final(self).pos(), r, parse_i64(old(self).bytes(), old(self).pos())),
    {
        let mut buf: Vec<u8> = vec![0u8; 8];
        match self.read_bytes_vec(&mut buf) {
            Ok(()) => {},
            Err(e) => {
                return Err(e);
            },
        }
        let lo: u64 = buf[0] as u64 + (buf[1] as u64) * 0x100 + (buf[2] as u64) * 0x1_0000 + (
        buf[3] as u64) * 0x100_0000;
        let hi: u64 = buf[4] as u64 + (buf[5] as u64) * 0x100 + (buf[6] as u64) * 0x1_0000 + (
        buf[7] as u64) * 0x100_0000;
        let u: u64 = lo + hi * 0x1_0000_0000;
        proof {
            let s = buf@;
            assert(lo == le_u32(s.subrange(0, 4)));
            assert(hi == le_u32(s.subrange(4, 8)));
            assert(u == le_u64(s));
            reveal_with_fuel(pow2_spec, 65);
        }
        if u < 0x8000_0000_0000_0000 {
            Ok(u as i64)
        } else {
            Ok(((u - 0x8000_0000_0000_0000) as i64) + i64::MIN)
        }
    }

    fn read_fstring(&mut self) -> (r: Result<String, UpkError>)
        requires
            cursor_ok(old(self).bytes(), old(self).pos()),
        ensures
            cursor_ok(final(self).bytes(), final(self).pos()),
            final(self).bytes() == old(self).bytes(),
            match parse_fstring(old(self).bytes(), old(self).pos()) {
                Ok((s, q)) => r matches Ok(v) && v@ == s && final(self).pos() == q,
                Err(e) => r == Err::<String, UpkError>(e),
            },
    {
        let length = match self.read_i32() {
            Ok(v) => v,
            Err(e) => {
                return Err(e);
            },
        };
        if length == 0 {
            return Ok(String::new());
        }
        if length == i32::MIN {
            return Err(UpkError::Format(FormatError::CorruptString));
        }
        if length < 0 {
            return Err(UpkError::Format(FormatError::UnsupportedEncoding));
        }
        let mut buffer: Vec<u8> = vec![0u8; length as usize];
        match self.read_bytes_vec(&mut buffer) {
            Ok(()) => {},
            Err(e) => {
                return Err(e);
            },
        }
        match string_from_utf8(buffer) {
            Some(s) => Ok(s),
            None => Err(UpkError::Format(FormatError::InvalidUtf8)),
        }
    }

    fn read_guid(&mut self) -> (r: Result<FGuid, UpkError>)
        requires
            cursor_ok(old(self).bytes(), old(self).pos()),
        ensures
            cursor_ok(final(self).bytes(), final(self).pos()),
            read_matches(old(self).bytes(), final(self).bytes(), final(self).pos(), r, parse_guid(old(self).bytes(), old(self).pos())),
    {
        let mut guid = FGuid { a: 0, b: 0, c: 0, d: 0 };
        match self.read_existing_guid(&mut guid) {
            Ok(()) => Ok(guid),
            Err(e) => Err(e),
        }
    }

    fn read_existing_guid(&mut self, guid: &mut FGuid) -> (r: Result<(), UpkError>)
        requires
            cursor_ok(old(self).bytes(), old(self).pos()),
        ensures
            cursor_ok(final(self).bytes(), final(self).pos()),
            final(self).bytes() == old(self).bytes(),
            match parse_guid(old(self).bytes(), old(self).pos()) {
                Ok((g, q)) => r is Ok && *final(guid) == g && final(self).pos() == q,
                Err(e) => r == Err::<(), UpkError>(e),
            },
    {
        let ghost b = self.bytes();
        let ghost p = self.pos();
        guid.a = match self.read_u32() {
            Ok(v) => v,
            Err(e) => {
                return Err(e);
            },
        };
        guid.b = match self.read_u32() {
            Ok(v) => v,
            Err(e) => {
                return Err(e);
            },
        };
        guid.c = match self.read_u32() {
            Ok(v) => v,
            Err(e) => {
                return Err(e);
            },
        };
        guid.d = match self.read_u32() {
            Ok(v) => v,
            Err(e) => {
                return Err(e);
            },
        };
        proof {
            assert(b.subrange(p + 4, p + 8) =~= b.subrange(p + 4, p + 4 + 4));
        }
        Ok(())
    }
}

/// A record with a fixed on-disk layout, filled in place from an archive.
pub trait UESerializable: View + Sized {
    /// What a record is read as from `b` at `p`, and the position after it.
    spec fn parse(b: Seq<u8>, p: int) -> Result<(Self::V, int), UpkError>;

    fn serialize<Ar: FArchive>(item: &mut Self, archive: &mut Ar) -> (r: Result<(), UpkError>)
        requires
            cursor_ok(old(archive).bytes(), old(archive).pos()),
        ensures
            cursor_ok(final(archive).bytes(), final(archive).pos()),
            final(archive).bytes() == old(archive).bytes(),
            match Self::parse(old(archive).bytes(), old(archive).pos()) {
                Ok((v, q)) => r is Ok && final(item)@ == v && final(archive).pos() == q,
                Err(e) => r == Err::<(), UpkError>(e),
            },
    ;
}

/// The views of a sequence of values.
pub open spec fn views_of<T: View>(s: Seq<T>) -> Seq<T::V> {
    s.map_values(|x: T| x@)
}

/// `n` records read one after another from `p` on.
pub open spec fn parse_items<T: UESerializable>(b: Seq<u8>, p: int, n: int) -> Result<
    (Seq<T::V>, int),
    UpkError,
>
    decreases n,
{
    if n <= 0 {
        Ok((Seq::<T::V>::empty(), p))
    } else {
        match parse_items::<T>(b, p, n - 1) {
            Err(e) => Err(e),
            Ok((s, q)) => match T::parse(b, q) {
                Err(e) => Err(e),
                Ok((x, r)) => Ok((s.push(x), r)),
            },
        }
    }
}

/// A signed 32-bit count, then that many records; a negative count is refused.
pub open spec fn parse_array<T: UESerializable>(b: Seq<u8>, p: int) -> Result<
    (Seq<T::V>, int),
    UpkError,
> {
    match parse_i32(b, p) {
        Err(e) => Err(e),
        Ok((n, q)) => if n < 0 {
            Err(UpkError::Format(FormatError::InvalidArraySize))
        } else {
            parse_items::<T>(b, q, n as int)
        },
    }
}

/// Once reading the first `i` records fails, reading `n >= i` fails the same way.
pub proof fn lemma_parse_items_failure_sticks<T: UESerializable>(b: Seq<u8>, p: int, i: int, n: int)
    requires
        0 <= i <= n,
        parse_items::<T>(b, p, i) is Err,
    ensures
        parse_items::<T>(b, p, n) == parse_items::<T>(b, p, i),
    decreases n - i,
{
    if n > i {
        lemma_parse_items_failure_sticks::<T>(b, p, i, n - 1);
    }
}

/// Reads one record into a fresh default value.
pub fn read_serializable<T: UESerializable + Default, Ar: FArchive>(archive: &mut Ar) -> (r: Result<
    T,
    UpkError,
>)
    requires
        cursor_ok(old(archive).bytes(), old(archive).pos()),
    ensures
        cursor_ok(final(archive).bytes(), final(archive).pos()),
        final(archive).bytes() == old(archive).bytes(),
        match T::parse(old(archive).bytes(), old(archive).pos()) {
            Ok((v, q)) => r matches Ok(x) && x@ == v && final(archive).pos() == q,
            Err(e) => r is Err && r == Err::<T, UpkError>(e),
        },
{
    let mut result = T::default();
    match T::serialize(&mut result, archive) {
        Ok(()) => Ok(result),
        Err(e) => Err(e),
    }
}

/// Reads `length` records one after another; a negative length is refused.
pub fn read_sized_serializable_array<T: UESerializable + Default, Ar: FArchive>(
    archive: &mut Ar,
    length: i32,
) -> (r: Result<Vec<T>, UpkError>)
    requires
        cursor_ok(old(archive).bytes(), old(archive).pos()),
    ensures
        cursor_ok(final(archive).bytes(), final(archive).pos()),
        final(archive).bytes() == old(archive).bytes(),
        length < 0 ==> r == Err::<Vec<T>, UpkError>(UpkError::Format(FormatError::InvalidArraySize))
            && final(archive).pos() == old(archive).pos(),
        length >= 0 ==> match parse_items::<T>(old(archive).bytes(), old(archive).pos(), length as int) {
            Ok((s, q)) => r matches Ok(v) && views_of(v@) == s && final(archive).pos() == q,
            Err(e) => r == Err::<Vec<T>, UpkError>(e),
        },
{
    if length < 0 {
        return Err(UpkError::Format(FormatError::InvalidArraySize));
    }
    let ghost b = archive.bytes();
    let ghost p = archive.pos();
    let mut result: Vec<T> = Vec::new();
    assert(views_of(result@) =~= Seq::<T::V>::empty());
    let mut i: i32 = 0;
    while i < length
        invariant
            0 <= i <= length,
            cursor_ok(archive.bytes(), archive.pos()),
            archive.bytes() == b,
            b == old(archive).bytes(),
            p == old(archive).pos(),
            parse_items::<T>(b, p, i as int) == Ok::<(Seq<T::V>, int), UpkError>(
                (views_of(result@), archive.pos()),
            ),
        decreases length - i,
    {
        let mut item = T::default();
        match T::serialize(&mut item, archive) {
            Ok(()) => {},
            Err(e) => {
                proof {
                    lemma_parse_items_failure_sticks::<T>(b, p, i + 1, length as int);
                }
                return Err(e);
            },
        }
        let ghost prev = result@;
        let ghost iv = item@;
        result.push(item);
        i = i + 1;
        assert(views_of(result@) =~= views_of(prev).push(iv));
    }
    Ok(result)
}

/// Reads a signed 32-bit count, then that many records.
pub fn read_serializable_array<T: UESerializable + Default, Ar: FArchive>(archive: &mut Ar) -> (r:
    Result<Vec<T>, UpkError>)
    requires
        cursor_ok(old(archive).bytes(), old(archive).pos()),
    ensures
        cursor_ok(final(archive).bytes(), final(archive).pos()),
        final(archive).bytes() == old(archive).bytes(),
        match parse_array::<T>(old(archive).bytes(), old(archive).pos()) {
            Ok((s, q)) => r matches Ok(v) && views_of(v@) == s && final(archive).pos() == q,
            Err(e) => r == Err::<Vec<T>, UpkError>(e),
        },
{
    let length = match archive.read_i32() {
        Ok(v) => v,
        Err(e) => {
            return Err(e);
        },
    };
    read_sized_serializable_array(archive, length)
}

/// Reads a signed 32-bit count, then that many primitive items (integers or
/// strings), each built by value.
pub fn read_array<T: UESerializable + Default, Ar: FArchive>(archive: &mut Ar) -> (r: Result<
    Vec<T>,
    UpkError,
>)
    requires
        cursor_ok(old(archive).bytes(), old(archive).pos()),
    ensures
        cursor_ok(final(archive).bytes(), final(archive).pos()),
        final(archive).bytes() == old(archive).bytes(),
        match parse_array::<T>(old(archive).bytes(), old(archive).pos()) {
            Ok((s, q)) => r matches Ok(v) && views_of(v@) == s && final(archive).pos() == q,
            Err(e) => r == Err::<Vec<T>, UpkError>(e),
        },
{
    let ghost b = archive.bytes();
    let length = match archive.read_i32() {
        Ok(v) => v,
        Err(e) => {
            return Err(e);
        },
    };
    if length < 0 {
        return Err(UpkError::Format(FormatError::InvalidArraySize));
    }
    let ghost p = archive.pos();
    let mut result: Vec<T> = Vec::new();
    assert(views_of(result@) =~= Seq::<T::V>::empty());
    let mut i: i32 = 0;
    while i < length
        invariant
            0 <= i <= length,
            cursor_ok(archive.bytes(), archive.pos()),
            archive.bytes() == b,
            b == old(archive).bytes(),
            parse_i32(b, old(archive).pos()) == Ok::<(i32, int), UpkError>((length, p)),
            parse_items::<T>(b, p, i as int) == Ok::<(Seq<T::V>, int), UpkError>(
                (views_of(result@), archive.pos()),
            ),
        decreases length - i,
    {
        let item: T = match read_serializable(archive) {
            Ok(v) => v,
            Err(e) => {
                proof {
                    lemma_parse_items_failure_sticks::<T>(b, p, i + 1, length as int);
                }
                return Err(e);
            },
        };
        let ghost prev = result@;
        let ghost iv = item@;
        result.push(item);
        i = i + 1;
        assert(views_of(result@) =~= views_of(prev).push(iv));
    }
    Ok(result)
}

impl UESerializable for i32 {
    open spec fn parse(b: Seq<u8>, p: int) -> Result<(i32, int), UpkError> {
        parse_i32(b, p)
    }

    fn serialize<Ar: FArchive>(item: &mut i32, archive: &mut Ar) -> (r: Result<(), UpkError>) {
        *item = match archive.read_i32() {
            Ok(v) => v,
            Err(e) => {
                return Err(e);
            },
        };
        Ok(())
    }
}

impl UESerializable for String {
    open spec fn parse(b: Seq<u8>, p: int) -> Result<(Seq<char>, int), UpkError> {
        parse_fstring(b, p)
    }

    fn serialize<Ar: FArchive>(item: &mut String, archive: &mut Ar) -> (r: Result<(), UpkError>) {
        *item = match archive.read_fstring() {
            Ok(v) => v,
            Err(e) => {
                return Err(e);
            },
        };
        Ok(())
    }
}

/// Relies on `String::from_utf8`: it accepts exactly the valid UTF-8 byte
/// sequences, and the string then holds the characters they encode.
#[verifier::external_body]
fn string_from_utf8(bytes: Vec<u8>) -> (r: Option<String>)
    ensures
        r is Some <==> valid_utf8(bytes@),
        r matches Some(s) ==> s@ == decode_utf8(bytes@),
{
    String::from_utf8(bytes).ok()
}

/// An archive over an owned byte buffer.
pub struct FByteArchive {
    data: Vec<u8>,
    cursor: usize,
}

impl FByteArchive {
    /// An archive over `data`, with the cursor at its start.
    pub fn new(data: Vec<u8>) -> (r: Self)
        ensures
            cursor_ok(r.bytes(), r.pos()),
            r.bytes() == data@,
            r.pos() == 0,
    {
        let _n = data.len();
        FByteArchive { data, cursor: 0 }
    }

    /// Gives up the buffer.
    pub fn into_inner(self) -> (r: Vec<u8>)
        ensures
            r@ == self.bytes(),
    {
        self.data
    }
}

impl FArchive for FByteArchive {
    closed spec fn bytes(&self) -> Seq<u8> {
        self.data@
    }

    closed spec fn pos(&self) -> int {
        self.cursor as int
    }

    fn read_bytes_vec(&mut self, buffer: &mut Vec<u8>) -> (r: Result<(), UpkError>) {
        let n = buffer.len();
        if n > self.data.len() - self.cursor {
            return Err(UpkError::Io);
        }
        let start = self.cursor;
        let mut i: usize = 0;
        while i < n
            invariant
                0 <= i <= n,
                n == buffer.len(),
                start + n <= self.data.len(),
                forall|j: int| 0 <= j < i ==> buffer@[j] == self.data@[start + j],
            decreases n - i,
        {
            buffer.set(i, self.data[start + i]);
            i = i + 1;
        }
        self.cursor = start + n;
        assert(buffer@ =~= self.data@.subrange(start as int, start + n));
        Ok(())
    }

    fn write_all(&mut self, buf: &[u8]) -> (r: Result<(), UpkError>) {
        let ghost before = self.data@;
        let start = self.cursor;
        let n = buf.len();
        let mut i: usize = 0;
        while i < n
            invariant
                0 <= i <= n,
                n == buf@.len(),
                start <= before.len(),
                start + n <= usize::MAX,
                self.data@ =~= place(before, start as int, buf@.subrange(0, i as int)),
            decreases n - i,
        {
            if start + i < self.data.len() {
                self.data.set(start + i, buf[i]);
            } else {
                self.data.push(buf[i]);
            }
            i = i + 1;
            assert(self.data@ =~= place(before, start as int, buf@.subrange(0, i as int)));
        }
        assert(buf@.subrange(0, n as int) =~= buf@);
        self.cursor = start + n;
        Ok(())
    }

    fn seek(&mut self, from: SeekFrom) -> (r: Result<u64, UpkError>) {
        let len = self.data.len();
        let target: i128 = match from {
            SeekFrom::Start(n) => n as i128,
            SeekFrom::End(d) => len as i128 + d as i128,
            SeekFrom::Current(d) => self.cursor as i128 + d as i128,
        };
        if target < 0 || target > len as i128 {
            return Err(UpkError::Io);
        }
        self.cursor = target as usize;
        Ok(target as u64)
    }

    fn len(&self) -> (r: usize) {
        self.data.len()
    }
}

} // verus!

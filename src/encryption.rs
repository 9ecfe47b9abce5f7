//! AES-256 keys and the stage that decrypts the header region in place.

use vstd::prelude::*;
use vstd::string::StringExecFns;

use aes::Aes256;
use block_modes::block_padding::ZeroPadding;
use block_modes::{BlockMode, Ecb};

use crate::archive::{cursor_ok, place, views_of, FArchive, SeekFrom};
use crate::{FormatError, UpkError};

verus! {

pub const KEY_SIZE: usize = 32;

/// What standard base64 (with padding) decodes `s` to, if it is valid.
pub uninterp spec fn base64_decoded(s: Seq<char>) -> Option<Seq<u8>>;

/// AES-256 decryption of each 16-byte block of `data` under `key`, in ECB
/// mode, before any padding is removed.
pub uninterp spec fn aes256_ecb_blocks(key: Seq<u8>, data: Seq<u8>) -> Seq<u8>;

/// Lower-case hex digit of a value below 16.
pub open spec fn hex_digit(n: int) -> char {
    if n < 10 {
        ((n + 48) as u8) as char
    } else {
        ((n - 10 + 97) as u8) as char
    }
}

/// Two lower-case hex digits per byte, high nibble first.
pub open spec fn hex_of(b: Seq<u8>) -> Seq<char>
    decreases b.len(),
{
    if b.len() == 0 {
        Seq::empty()
    } else {
        hex_of(b.drop_last()) + seq![hex_digit(b.last() as int / 16), hex_digit(b.last() as int % 16)]
    }
}

/// How many bytes zero-unpadding keeps of the first `n` bytes of `d`: up to
/// the last non-zero byte after the first, and never fewer than one.
pub open spec fn unpadded_len(d: Seq<u8>, n: int) -> int
    decreases n,
{
    if n <= 1 {
        1
    } else if d[n - 1] != 0 {
        n
    } else {
        unpadded_len(d, n - 1)
    }
}

/// What decrypting `data` under `key` gives: nothing where the length is not
/// a whole number of blocks, else the decrypted blocks with trailing zero
/// bytes removed.
pub open spec fn ecb_decrypted(key: Seq<u8>, data: Seq<u8>) -> Option<Seq<u8>> {
    if data.len() % 16 != 0 {
        None
    } else {
        let raw = aes256_ecb_blocks(key, data);
        Some(raw.subrange(0, unpadded_len(raw, raw.len() as int)))
    }
}

/// Relies on `base64::decode`: the standard alphabet with padding; the bytes
/// depend on the text alone.
#[verifier::external_body]
fn decode_base64(s: &str) -> (r: Option<Vec<u8>>)
    ensures
        match r {
            Some(v) => base64_decoded(s@) == Some(v@),
            None => base64_decoded(s@) is None,
        },
{
    base64::decode(s).ok()
}

/// Relies on `hex::encode`: two lower-case digits per byte, high nibble first.
#[verifier::external_body]
fn encode_hex(b: &[u8]) -> (r: String)
    ensures
        r@ == hex_of(b@),
{
    hex::encode(b)
}

/// Relies on `block_modes::Ecb::<Aes256, ZeroPadding>`: `new_from_slices`
/// accepts a 32-byte key and ignores the IV; `decrypt_vec` refuses a length
/// that is not a multiple of 16, and otherwise decrypts every block and
/// `ZeroPadding::unpad` drops trailing zero bytes, keeping at least one (it
/// would underflow on empty data).
#[verifier::external_body]
fn ecb_decrypt(key: &[u8; KEY_SIZE], data: &[u8]) -> (r: Option<Vec<u8>>)
    requires
        data@.len() > 0,
    ensures
        match r {
            Some(v) => ecb_decrypted(key@, data@) == Some(v@) && aes256_ecb_blocks(key@, data@).len()
                == data@.len(),
            None => ecb_decrypted(key@, data@) is None,
        },
{
    let cipher = match Ecb::<Aes256, ZeroPadding>::new_from_slices(key, &[]) {
        Ok(c) => c,
        Err(_) => return None,
    };
    cipher.decrypt_vec(data).ok()
}

/// A 32-byte AES-256 key.
#[derive(Debug, Clone, Copy)]
pub struct FAesKey {
    pub key: [u8; KEY_SIZE],
}

impl View for FAesKey {
    type V = Seq<u8>;

    open spec fn view(&self) -> Seq<u8> {
        self.key@
    }
}

impl FAesKey {
    /// A key from its base64 text; refused unless it decodes to exactly 32
    /// bytes.
    pub fn from_base64(base64: &str) -> (r: Result<Self, UpkError>)
        ensures
            match base64_decoded(base64@) {
                Some(v) => if v.len() == KEY_SIZE {
                    r matches Ok(k) && k@ == v
                } else {
                    r == Err::<FAesKey, UpkError>(UpkError::InvalidKey)
                },
                None => r == Err::<FAesKey, UpkError>(UpkError::InvalidKey),
            },
    {
        match decode_base64(base64) {
            Some(v) => Self::from_bytes(&v),
            None => Err(UpkError::InvalidKey),
        }
    }

    /// A key from its raw bytes; refused unless there are exactly 32.
    pub fn from_bytes(decoded: &Vec<u8>) -> (r: Result<Self, UpkError>)
        ensures
            if decoded@.len() == KEY_SIZE {
                r matches Ok(k) && k@ == decoded@
            } else {
                r == Err::<FAesKey, UpkError>(UpkError::InvalidKey)
            },
    {
        if decoded.len() != KEY_SIZE {
            return Err(UpkError::InvalidKey);
        }
        let mut key = [0u8; KEY_SIZE];
        let mut i: usize = 0;
        while i < KEY_SIZE
            invariant
                0 <= i <= KEY_SIZE,
                decoded@.len() == KEY_SIZE,
                forall|j: int| 0 <= j < i ==> key@[j] == decoded@[j],
            decreases KEY_SIZE - i,
        {
            key[i] = decoded[i];
            i = i + 1;
        }
        assert(key@ =~= decoded@);
        Ok(FAesKey { key })
    }

    /// `0x` followed by the key in lower-case hex.
    pub fn to_hex(&self) -> (r: String)
        ensures
            r@ == seq!['0', 'x'] + hex_of(self@),
    {
        let digits = encode_hex(self.key.as_slice());
        let mut r = "0x".to_owned();
        proof {
            reveal_strlit("0x");
        }
        r.append(digits.as_str());
        r
    }

    /// The key bytes.
    pub fn as_bytes(&self) -> (r: &[u8])
        ensures
            r@ == self@,
    {
        self.key.as_slice()
    }

    /// A copy of the key bytes.
    pub fn to_bytes(&self) -> (r: Vec<u8>)
        ensures
            r@ == self@,
    {
        let mut result: Vec<u8> = Vec::new();
        let mut i: usize = 0;
        while i < KEY_SIZE
            invariant
                0 <= i <= KEY_SIZE,
                result@ =~= self.key@.subrange(0, i as int),
            decreases KEY_SIZE - i,
        {
            result.push(self.key[i]);
            i = i + 1;
        }
        result
    }

    /// Decrypts the `len` bytes at `offset` with this key and writes the
    /// plaintext back over them.
    pub fn decrypt<Ar: FArchive>(&self, archive: &mut Ar, offset: u64, len: usize) -> (r: Result<
        (),
        UpkError,
    >)
        requires
            cursor_ok(old(archive).bytes(), old(archive).pos()),
        ensures
            cursor_ok(final(archive).bytes(), final(archive).pos()),
            match region_of(old(archive).bytes(), offset as int, len as int) {
                Err(e) => r == Err::<(), UpkError>(e) && final(archive).bytes() == old(archive).bytes(),
                Ok(ct) => match decrypted_region(self@, ct) {
                    Ok(pt) => r is Ok && final(archive).bytes() == place(
                        old(archive).bytes(),
                        offset as int,
                        pt,
                    ) && aes256_ecb_blocks(self@, ct).len() == ct.len(),
                    Err(e) => r == Err::<(), UpkError>(e) && final(archive).bytes() == old(
                        archive,
                    ).bytes(),
                },
            },
    {
        if len == 0 {
            return Err(UpkError::Format(FormatError::InvalidEncryptedRegion));
        }
        match archive.seek(SeekFrom::Start(offset)) {
            Ok(_) => {},
            Err(e) => {
                return Err(e);
            },
        }
        let mut encrypted: Vec<u8> = vec![0u8; len];
        match archive.read_bytes_vec(&mut encrypted) {
            Ok(()) => {},
            Err(e) => {
                return Err(e);
            },
        }
        let decrypted = ecb_decrypt(&self.key, encrypted.as_slice());
        write_plaintext(archive, offset, len, decrypted)
    }
}

/// The `len` bytes at `offset` that are to be decrypted; an empty region is
/// refused.
pub open spec fn region_of(b: Seq<u8>, offset: int, len: int) -> Result<Seq<u8>, UpkError> {
    if len <= 0 {
        Err(UpkError::Format(FormatError::InvalidEncryptedRegion))
    } else if offset + len <= b.len() {
        Ok(b.subrange(offset, offset + len))
    } else {
        Err(UpkError::Io)
    }
}

/// What decrypting the region `ct` with `key` gives: the plaintext, which
/// must be exactly as long; a key the cipher refuses gives `Key`.
pub open spec fn decrypted_region(key: Seq<u8>, ct: Seq<u8>) -> Result<Seq<u8>, UpkError> {
    plaintext_outcome(ct.len() as int, ecb_decrypted(key, ct))
}

/// The verdict on a decryption result for a region of `len` bytes.
pub open spec fn plaintext_outcome(len: int, decrypted: Option<Seq<u8>>) -> Result<
    Seq<u8>,
    UpkError,
> {
    match decrypted {
        None => Err(UpkError::Key),
        Some(pt) => if pt.len() == len {
            Ok(pt)
        } else {
            Err(UpkError::Format(FormatError::DecryptedSizeMismatch))
        },
    }
}

/// Writes the outcome of decrypting the `len` bytes at `offset` back over
/// them: a region past the end of the data, no plaintext, or one of another
/// length is an error and leaves the data untouched.
pub fn write_plaintext<Ar: FArchive>(
    archive: &mut Ar,
    offset: u64,
    len: usize,
    decrypted: Option<Vec<u8>>,
) -> (r: Result<(), UpkError>)
    requires
        cursor_ok(old(archive).bytes(), old(archive).pos()),
    ensures
        cursor_ok(final(archive).bytes(), final(archive).pos()),
        offset + len > old(archive).bytes().len() ==> r == Err::<(), UpkError>(UpkError::Io)
            && final(archive).bytes() == old(archive).bytes(),
        offset + len <= old(archive).bytes().len() ==> match plaintext_outcome(
            len as int,
            match decrypted {
                Some(v) => Some(v@),
                None => None,
            },
        ) {
            Ok(pt) => r is Ok && final(archive).bytes() == place(
                old(archive).bytes(),
                offset as int,
                pt,
            ),
            Err(e) => r == Err::<(), UpkError>(e) && final(archive).bytes() == old(
                archive,
            ).bytes(),
        },
{
    let size = archive.len();
    if offset > size as u64 || len > size - offset as usize {
        return Err(UpkError::Io);
    }
    let plaintext = match decrypted {
        Some(v) => v,
        None => {
            return Err(UpkError::Key);
        },
    };
    if plaintext.len() != len {
        return Err(UpkError::Format(FormatError::DecryptedSizeMismatch));
    }
    match archive.seek(SeekFrom::Start(offset)) {
        Ok(_) => {},
        Err(e) => {
            return Err(e);
        },
    }
    archive.write_all(plaintext.as_slice())
}

/// Decrypting with the keys in order: the first key that yields a plaintext
/// as long as the region decides; a key the cipher refuses, or one whose
/// plaintext has another length, passes to the next. When every key fails,
/// the last key's error; with no key at all, `Key`.
pub open spec fn decrypted_with_keys(keys: Seq<Seq<u8>>, ct: Seq<u8>) -> Result<Seq<u8>, UpkError>
    decreases keys.len(),
{
    if keys.len() == 0 {
        Err(UpkError::Key)
    } else {
        match decrypted_region(keys[0], ct) {
            Ok(pt) => Ok(pt),
            Err(e) => if keys.len() == 1 {
                Err(e)
            } else {
                decrypted_with_keys(keys.drop_first(), ct)
            },
        }
    }
}

/// Decrypts the `len` bytes at `offset` in place, trying each key in order
/// until one succeeds. On any error the data is left as it was.
pub fn decrypt_with_keys<Ar: FArchive>(
    archive: &mut Ar,
    keys: &Vec<FAesKey>,
    offset: u64,
    len: usize,
) -> (r: Result<(), UpkError>)
    requires
        cursor_ok(old(archive).bytes(), old(archive).pos()),
    ensures
        cursor_ok(final(archive).bytes(), final(archive).pos()),
        r is Err ==> final(archive).bytes() == old(archive).bytes(),
        keys@.len() == 0 ==> r == Err::<(), UpkError>(UpkError::Key),
        keys@.len() > 0 ==> match region_of(old(archive).bytes(), offset as int, len as int) {
            Err(e) => r == Err::<(), UpkError>(e),
            Ok(ct) => match decrypted_with_keys(views_of(keys@), ct) {
                Ok(pt) => r is Ok && final(archive).bytes() == place(
                    old(archive).bytes(),
                    offset as int,
                    pt,
                ),
                Err(e) => r == Err::<(), UpkError>(e),
            },
        },
{
    let ghost b = archive.bytes();
    let ghost all = views_of(keys@);
    let ghost region = region_of(b, offset as int, len as int);
    let mut i: usize = 0;
    while i < keys.len()
        invariant
            keys@.len() > 0 ==> i < keys@.len(),
            cursor_ok(archive.bytes(), archive.pos()),
            archive.bytes() == b,
            b == old(archive).bytes(),
            all == views_of(keys@),
            region == region_of(b, offset as int, len as int),
            i > 0 && region is Ok ==> decrypted_with_keys(all, region->Ok_0) == decrypted_with_keys(
                all.subrange(i as int, all.len() as int),
                region->Ok_0,
            ),
        decreases keys@.len() - i,
    {
        let ghost rest = all.subrange(i as int, all.len() as int);
        assert(rest.drop_first() =~= all.subrange(i + 1, all.len() as int));
        assert(rest[0] == keys@[i as int]@);
        assert(i == 0 ==> rest =~= all);
        match keys[i].decrypt(archive, offset, len) {
            Ok(()) => {
                return Ok(());
            },
            Err(e) => {
                if i + 1 == keys.len() {
                    return Err(e);
                }
            },
        }
        i = i + 1;
    }
    Err(UpkError::Key)
}

} // verus!

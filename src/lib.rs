//! Recovery of plaintext, decompressed cooked packages whose header region is
//! AES-256/ECB encrypted and whose body is stored as zlib-compressed chunks.

use vstd::prelude::*;

pub mod archive;
pub mod compression;
pub mod encryption;
pub mod layout;
pub mod package;

verus! {

/// A malformed-package condition: the file is not something this library can
/// reconstruct.
#[derive(Debug, Clone, Copy, PartialEq, Eq, Structural)]
pub enum FormatError {
    /// The leading 32-bit word is not the package magic.
    BadMagic,
    /// A length-prefixed array declares a negative length.
    InvalidArraySize,
    /// The chunk table declares a count outside `[0, 100]`.
    ChunkCountOutOfRange,
    /// A 64-bit on-disk offset does not fit in 32 bits.
    OffsetOutOfRange,
    /// A string length of `i32::MIN`.
    CorruptString,
    /// A negative string length: UTF-16 strings are not handled.
    UnsupportedEncoding,
    /// A string payload that is not valid UTF-8.
    InvalidUtf8,
    /// The header declares gzip compression, which is not handled.
    UnsupportedCompression,
    /// The computed encrypted region is empty or negative.
    InvalidEncryptedRegion,
    /// The plaintext is not exactly as long as the ciphertext.
    DecryptedSizeMismatch,
    /// A chunk header that declares a negative uncompressed size.
    NegativeSize,
    /// A compressed block that declares no uncompressed bytes.
    EmptyBlock,
    /// The block list of a chunk overshoots the chunk's declared size.
    BlockListOverrun,
    /// A block payload is not a valid zlib stream.
    InflateFailed,
}

/// A free-form error carrying a message.
#[derive(Debug)]
pub struct ParserError {
    pub message: String,
}

impl ParserError {
    pub fn new(message: &str) -> (r: Self)
        ensures
            r.message@ == message@,
    {
        ParserError { message: message.to_owned() }
    }
}

/// Every way in which loading one package can fail.
#[derive(Debug)]
pub enum UpkError {
    /// A read past the end of the data, or a seek outside it.
    Io,
    /// The bytes do not form a valid package.
    Format(FormatError),
    /// No registered key decrypts the header region.
    Key,
    /// A key text that is not base64 for exactly 32 bytes.
    InvalidKey,
    /// Any other failure, described by its message.
    Parser(ParserError),
}

/// What `str::to_lowercase` makes of a string.
pub uninterp spec fn lower_of(s: Seq<char>) -> Seq<char>;

/// Relies on `str::to_lowercase`: the result depends on the characters alone.
#[verifier::external_body]
fn lowercase(s: &str) -> (r: String)
    ensures
        r@ == lower_of(s@),
{
    s.to_lowercase()
}

/// Whether two names are equal once both are lower-cased.
pub open spec fn same_name(a: Seq<char>, b: Seq<char>) -> bool {
    lower_of(a) == lower_of(b)
}

/// The position of the first of `file_names` equal to `name` without regard
/// to case.
pub fn find_game_file(file_names: &Vec<String>, name: &str) -> (r: Option<usize>)
    ensures
        match r {
            Some(i) => i < file_names@.len() && same_name(file_names@[i as int]@, name@) && (
            forall|j: int| 0 <= j < i ==> !same_name(#[trigger] file_names@[j]@, name@)),
            None => forall|j: int|
                0 <= j < file_names@.len() ==> !same_name(#[trigger] file_names@[j]@, name@),
        },
{
    let wanted = lowercase(name);
    let mut i: usize = 0;
    while i < file_names.len()
        invariant
            0 <= i <= file_names@.len(),
            wanted@ == lower_of(name@),
            forall|j: int| 0 <= j < i ==> !same_name(#[trigger] file_names@[j]@, name@),
        decreases file_names@.len() - i,
    {
        let candidate = lowercase(file_names[i].as_str());
        if candidate == wanted {
            return Some(i);
        }
        i = i + 1;
    }
    None
}

/// Where packages are read from.
#[derive(Debug, Clone, Copy, PartialEq, Eq, Structural)]
pub enum FileProviderType {
    /// Package files in a directory.
    Files,
    /// A streamed source, which is not handled.
    Streamed,
}

impl FileProviderType {
    /// Whether packages come from files on disk.
    pub fn is_physical(self) -> (r: bool)
        ensures
            r == (self == FileProviderType::Files),
    {
        match self {
            FileProviderType::Files => true,
            FileProviderType::Streamed => false,
        }
    }
}

} // verus!

//! A single file as the editor holds it: its text, the encoding that the
//! text was read in, and what the file system says about the file.

use vstd::prelude::*;

verus! {

#[verifier::external_type_specification]
#[verifier::external_body]
pub struct ExEncoding(encoding_rs::Encoding);

/// The name of an encoding, as `encoding_rs::Encoding::name` reports it.
pub uninterp spec fn encoding_name(encoding: encoding_rs::Encoding) -> Seq<char>;

/// The name of the encoding that `chardetng::EncodingDetector` guesses for
/// a complete stream of bytes, no top-level domain given and UTF-8 allowed.
pub uninterp spec fn detected_encoding(bytes: Seq<u8>) -> Seq<char>;

/// The text that the encoding of the given name decodes the bytes to, a
/// byte order mark honoured and left out, and each malformed sequence
/// replaced: the first part of what `encoding_rs::Encoding::decode` returns.
pub uninterp spec fn decoded_text(encoding: Seq<char>, bytes: Seq<u8>) -> Seq<char>;

/// `chardetng::EncodingDetector::new`, `feed` with the whole input as the
/// last chunk, and `guess(None, true)`.
#[verifier::external_body]
fn guess_encoding(bytes: &[u8]) -> (encoding: &'static encoding_rs::Encoding)
    ensures
        encoding_name(*encoding) == detected_encoding(bytes@),
{
    let mut detector = chardetng::EncodingDetector::new();
    detector.feed(bytes, true);
    detector.guess(None, true)
}

/// `encoding_rs::Encoding::name`.
#[verifier::external_body]
fn name_of(encoding: &'static encoding_rs::Encoding) -> (name: String)
    ensures
        name@ == encoding_name(*encoding),
{
    encoding.name().to_string()
}

/// `encoding_rs::Encoding::decode`, the text taken as an owned string. The
/// call panics where the size of its buffer overflows; an input of less
/// than a quarter of the address space is far from that.
#[verifier::external_body]
fn decode(encoding: &'static encoding_rs::Encoding, bytes: &[u8]) -> (text: String)
    requires
        bytes@.len() < usize::MAX / 4,
    ensures
        text@ == decoded_text(encoding_name(*encoding), bytes@),
{
    encoding.decode(bytes).0.into_owned()
}

/// What the file system says about a file.
#[derive(Debug, Clone, PartialEq, Eq)]
pub struct FileStat {
    pub path: String,
    /// Milliseconds since the Unix epoch.
    pub last_modified: u64,
    /// Bytes.
    pub size: u64,
}

/// A file as the editor holds it.
#[derive(Debug, Clone, PartialEq, Eq)]
pub struct FileContent {
    pub path: String,
    pub content: String,
    /// The name of the encoding that the content was read in.
    pub encoding: String,
    pub stat: FileStat,
}

/// A time after the epoch in whole milliseconds, as far as 64 bits hold it.
pub open spec fn millis(secs: u64, subsec_nanos: u32) -> int {
    (secs * 1000 + subsec_nanos / 1_000_000) % 0x1_0000_0000_0000_0000
}

/// Turns seconds and nanoseconds since the epoch into milliseconds.
pub fn epoch_millis(secs: u64, subsec_nanos: u32) -> (ms: u64)
    ensures
        ms == millis(secs, subsec_nanos),
{
    let wide: u128 = secs as u128 * 1000 + (subsec_nanos / 1_000_000) as u128;
    (wide % 0x1_0000_0000_0000_0000u128) as u64
}

/// What the file system says about the file at `path`, last modified at
/// the given time.
pub fn file_stat(path: String, modified_secs: u64, modified_nanos: u32, size: u64) -> (stat:
    FileStat)
    ensures
        stat.path == path,
        stat.last_modified == millis(modified_secs, modified_nanos),
        stat.size == size,
{
    FileStat { path, last_modified: epoch_millis(modified_secs, modified_nanos), size }
}

/// Turns the bytes of the file at `path` into text, in the encoding that
/// the bytes themselves suggest.
pub fn read_document(
    path: String,
    bytes: &[u8],
    modified_secs: u64,
    modified_nanos: u32,
    size: u64,
) -> (document: FileContent)
    requires
        bytes@.len() < usize::MAX / 4,
    ensures
        document.path@ == path@,
        document.encoding@ == detected_encoding(bytes@),
        document.content@ == decoded_text(detected_encoding(bytes@), bytes@),
        document.stat.path == path,
        document.stat.last_modified == millis(modified_secs, modified_nanos),
        document.stat.size == size,
{
    let encoding = guess_encoding(bytes);
    let content = decode(encoding, bytes);
    FileContent {
        path: path.clone(),
        content,
        encoding: name_of(encoding),
        stat: file_stat(path, modified_secs, modified_nanos, size),
    }
}

} // verus!

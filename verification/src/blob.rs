//! Audio data: the container formats and the byte buffers that carry them.

use bytes::{Bytes, BytesMut};
use vstd::prelude::*;

verus! {

/// A container format.
#[derive(Clone, Copy, PartialEq, Eq, Structural, Debug)]
pub enum AudioFormat {
    Mp3,
    Wav,
    Flac,
    Ogg,
    Opus,
    M4a,
    Unknown,
}

impl AudioFormat {
    /// The name of the format, in lower case, as a file name ends with it.
    pub open spec fn name(self) -> Seq<char> {
        match self {
            AudioFormat::Mp3 => "mp3"@,
            AudioFormat::Wav => "wav"@,
            AudioFormat::Flac => "flac"@,
            AudioFormat::Ogg => "ogg"@,
            AudioFormat::Opus => "opus"@,
            AudioFormat::M4a => "m4a"@,
            AudioFormat::Unknown => "unknown"@,
        }
    }

    /// The name of the format, in lower case.
    pub fn extension(self) -> (s: &'static str)
        ensures
            s@ == self.name(),
    {
        match self {
            AudioFormat::Mp3 => "mp3",
            AudioFormat::Wav => "wav",
            AudioFormat::Flac => "flac",
            AudioFormat::Ogg => "ogg",
            AudioFormat::Opus => "opus",
            AudioFormat::M4a => "m4a",
            AudioFormat::Unknown => "unknown",
        }
    }
}

/// `bytes::Bytes`, a shared read-only byte buffer.
#[verifier::external_type_specification]
#[verifier::external_body]
pub struct ExBytes(bytes::Bytes);

/// The bytes that a buffer holds.
pub uninterp spec fn contents(b: Bytes) -> Seq<u8>;

/// `Bytes::from`: a buffer that holds the bytes of the vector.
#[verifier::external_body]
pub(crate) fn bytes_from_vec(v: Vec<u8>) -> (b: Bytes)
    ensures
        contents(b) == v@,
{
    Bytes::from(v)
}

/// `Bytes::copy_from_slice`: a buffer that holds a copy of the bytes.
#[verifier::external_body]
pub(crate) fn bytes_from_slice(data: &[u8]) -> (b: Bytes)
    ensures
        contents(b) == data@,
{
    Bytes::copy_from_slice(data)
}

/// `Bytes::len`: the number of bytes held.
#[verifier::external_body]
pub(crate) fn bytes_len(b: &Bytes) -> (n: usize)
    ensures
        n == contents(*b).len(),
{
    b.len()
}

/// `Bytes::slice` over an inclusive range: the bytes from `start` to `end`, both
/// included. It panics unless the range lies within the buffer.
#[verifier::external_body]
pub(crate) fn bytes_slice(b: &Bytes, start: usize, end: usize) -> (r: Bytes)
    requires
        start <= end < contents(*b).len(),
    ensures
        contents(r) == contents(*b).subrange(start as int, end + 1),
{
    b.slice(start..=end)
}

/// `Bytes::clone`: a second handle on the same bytes.
#[verifier::external_body]
pub(crate) fn bytes_clone(b: &Bytes) -> (r: Bytes)
    ensures
        contents(r) == contents(*b),
{
    b.clone()
}

/// `Bytes::as_ref`: the bytes held, as a slice.
#[verifier::external_body]
pub(crate) fn bytes_as_slice(b: &Bytes) -> (r: &[u8])
    ensures
        r@ == contents(*b),
{
    b.as_ref()
}

/// `bytes::BytesMut`, a byte buffer that grows.
#[verifier::external_type_specification]
#[verifier::external_body]
pub struct ExBytesMut(bytes::BytesMut);

/// The bytes that a growing buffer holds.
pub uninterp spec fn gathered(b: BytesMut) -> Seq<u8>;

/// `BytesMut::new`: a growing buffer that holds no bytes.
#[verifier::external_body]
pub(crate) fn gather_new() -> (b: BytesMut)
    ensures
        gathered(b) == Seq::<u8>::empty(),
{
    BytesMut::new()
}

/// `BytesMut::extend_from_slice`: appends the bytes. The buffer at most doubles what it has
/// to hold, and panics where that is more than an allocation can be.
#[verifier::external_body]
pub(crate) fn gather(b: &mut BytesMut, data: &[u8])
    requires
        gathered(*old(b)).len() + data@.len() <= isize::MAX / 2,
    ensures
        gathered(*final(b)) == gathered(*old(b)) + data@,
{
    b.extend_from_slice(data)
}

/// `BytesMut::is_empty`: whether no bytes are held.
#[verifier::external_body]
pub(crate) fn gathered_none(b: &BytesMut) -> (r: bool)
    ensures
        r == (gathered(*b).len() == 0),
{
    b.is_empty()
}

/// Audio data with the container format that it is in.
pub struct AudioBuffer {
    pub data: Bytes,
    pub kind: AudioFormat,
}

impl AudioBuffer {
    /// The bytes of the buffer.
    pub open spec fn bytes(self) -> Seq<u8> {
        contents(self.data)
    }

    /// Audio data of a known format.
    pub fn from_bytes_with_format(data: Vec<u8>, kind: AudioFormat) -> (b: AudioBuffer)
        ensures
            b.bytes() == data@,
            b.kind == kind,
    {
        AudioBuffer { data: bytes_from_vec(data), kind }
    }

    /// The format of the data.
    pub fn format(&self) -> (f: AudioFormat)
        ensures
            f == self.kind,
    {
        self.kind
    }

    /// The number of bytes.
    pub fn len(&self) -> (n: usize)
        ensures
            n == self.bytes().len(),
    {
        bytes_len(&self.data)
    }

    /// The bytes themselves.
    pub fn into_bytes(self) -> (b: Bytes)
        ensures
            contents(b) == self.bytes(),
    {
        self.data
    }

    /// A second handle on the same audio.
    pub fn share(&self) -> (b: AudioBuffer)
        ensures
            b.bytes() == self.bytes(),
            b.kind == self.kind,
    {
        AudioBuffer { data: bytes_clone(&self.data), kind: self.kind }
    }
}

/// Each format is named as files of it end.
pub proof fn law_formats_are_named_as_files_end(f: AudioFormat, g: AudioFormat)
    ensures
        AudioFormat::Mp3.name() == "mp3"@,
        AudioFormat::Wav.name() == "wav"@,
        AudioFormat::Flac.name() == "flac"@,
        AudioFormat::Ogg.name() == "ogg"@,
        AudioFormat::Opus.name() == "opus"@,
        AudioFormat::M4a.name() == "m4a"@,
        AudioFormat::Unknown.name() == "unknown"@,
        f.name() == g.name() ==> f == g,
{
    reveal_strlit("mp3");
    reveal_strlit("wav");
    reveal_strlit("flac");
    reveal_strlit("ogg");
    reveal_strlit("opus");
    reveal_strlit("m4a");
    reveal_strlit("unknown");
    assert(f != g ==> f.name().len() != g.name().len() || f.name()[0] != g.name()[0]
        || f.name()[1] != g.name()[1]);
}

/// The bytes of a buffer are the contents of its data.
pub proof fn law_buffer_holds_its_data(b: AudioBuffer)
    ensures
        b.bytes() == contents(b.data),
{
}

} // verus!

//! Decoding of RIFF WAVE audio files.
//!
//! A file starts with a `RIFF` chunk header followed by the `WAVE` form type, and then holds two
//! chunks: a `fmt ` chunk describing the samples and a `data` chunk holding 16-bit samples up to
//! the end of the file. Headers that run past the end of the file read as zeros.

use vstd::prelude::*;

verus! {

/// The size in bytes of the body of a `fmt ` chunk.
pub const FORMAT_CHUNK_SIZE: u32 = 16;

/// Why the bytes of a file are not a WAVE file this decoder can read.
#[derive(Debug, Clone, Copy, PartialEq, Eq, Structural)]
pub enum WaveError {
    /// The file does not start with a `RIFF` chunk header.
    NotRiff,
    /// The RIFF form type is not `WAVE`.
    NotWave,
    /// A `fmt ` chunk's size is not the size of a format chunk.
    FormatChunkSize,
    /// The file ends inside a `fmt ` chunk.
    TruncatedFormatChunk,
    /// A `data` chunk's size does not match the samples that follow it.
    DataChunkSize,
    /// A chunk header names neither `fmt ` nor `data`.
    UnknownChunk,
}

/// A chunk header: four identifying bytes and the size of the chunk's body.
#[derive(Debug, Clone, Copy)]
pub struct ChunkHeader {
    pub id: [u8; 4],
    pub chunk_size: u32,
}

#[derive(Debug, Clone, Copy, PartialEq, Eq, Structural)]
pub struct FormatChunk {
    /// 1 for uncompressed Microsoft PCM audio.
    pub format: u16,
    pub channels: u16,
    /// Frequency of the audio in Hz.
    pub frames_per_second: u32,
    /// For estimating RAM allocation.
    pub avg_bytes_per_second: u32,
    /// Sample frame size in bytes.
    pub bytes_per_frame: u16,
}

#[derive(Debug, Clone)]
pub struct DataChunk {
    /// 16-bit samples.
    pub samples: Vec<u16>,
}

#[derive(Debug, Clone)]
pub struct Wave {
    pub format: FormatChunk,
    pub data: DataChunk,
}

/// A read position in the bytes of a file.
pub struct ByteStream<'a> {
    bytes: &'a [u8],
    pos: usize,
}

/// The byte at `i`, or zero past the end of the file.
pub open spec fn byte_at(bytes: Seq<u8>, i: int) -> u8 {
    if 0 <= i < bytes.len() {
        bytes[i]
    } else {
        0
    }
}

/// The little-endian 16-bit value at `i`.
pub open spec fn le_u16(bytes: Seq<u8>, i: int) -> u16 {
    (byte_at(bytes, i) + 256 * byte_at(bytes, i + 1)) as u16
}

/// The little-endian 32-bit value at `i`.
pub open spec fn le_u32(bytes: Seq<u8>, i: int) -> u32 {
    (byte_at(bytes, i) + 256 * byte_at(bytes, i + 1) + 65536 * byte_at(bytes, i + 2) + 16777216
        * byte_at(bytes, i + 3)) as u32
}

/// Each byte of a little-endian 32-bit field is a digit of its value in base 256, least
/// significant first: the value read gives back every byte, the last one as the most
/// significant, so no byte is lost and every value from 0 to `u32::MAX` can be read.
pub proof fn lemma_le_u32_digits(bytes: Seq<u8>, i: int)
    ensures
        le_u32(bytes, i) % 256 == byte_at(bytes, i),
        (le_u32(bytes, i) / 256) % 256 == byte_at(bytes, i + 1),
        (le_u32(bytes, i) / 65536) % 256 == byte_at(bytes, i + 2),
        le_u32(bytes, i) / 16777216 == byte_at(bytes, i + 3),
{
    let (b0, b1, b2, b3) = (
        byte_at(bytes, i) as int,
        byte_at(bytes, i + 1) as int,
        byte_at(bytes, i + 2) as int,
        byte_at(bytes, i + 3) as int,
    );
    let v = b0 + 256 * b1 + 65536 * b2 + 16777216 * b3;
    assert(0 <= v < 4294967296) by (nonlinear_arith)
        requires
            0 <= b0 < 256,
            0 <= b1 < 256,
            0 <= b2 < 256,
            0 <= b3 < 256,
            v == b0 + 256 * b1 + 65536 * b2 + 16777216 * b3,
    ;
    assert(le_u32(bytes, i) == v);
    assert(v % 256 == b0 && (v / 256) % 256 == b1 && (v / 65536) % 256 == b2 && v / 16777216 == b3)
        by (nonlinear_arith)
        requires
            0 <= b0 < 256,
            0 <= b1 < 256,
            0 <= b2 < 256,
            0 <= b3 < 256,
            v == b0 + 256 * b1 + 65536 * b2 + 16777216 * b3,
    ;
}

/// Each byte of a little-endian 16-bit field is a digit of its value in base 256, least
/// significant first.
pub proof fn lemma_le_u16_digits(bytes: Seq<u8>, i: int)
    ensures
        le_u16(bytes, i) % 256 == byte_at(bytes, i),
        le_u16(bytes, i) / 256 == byte_at(bytes, i + 1),
{
    let (b0, b1) = (byte_at(bytes, i) as int, byte_at(bytes, i + 1) as int);
    let v = b0 + 256 * b1;
    assert(0 <= v < 65536);
    assert(le_u16(bytes, i) == v);
    assert(v % 256 == b0 && v / 256 == b1) by (nonlinear_arith)
        requires
            0 <= b0 < 256,
            0 <= b1 < 256,
            v == b0 + 256 * b1,
    ;
}

/// The four bytes at `i` are `tag`.
pub open spec fn tag_at(bytes: Seq<u8>, i: int, tag: Seq<u8>) -> bool {
    &&& byte_at(bytes, i) == tag[0]
    &&& byte_at(bytes, i + 1) == tag[1]
    &&& byte_at(bytes, i + 2) == tag[2]
    &&& byte_at(bytes, i + 3) == tag[3]
}

pub open spec fn riff_tag() -> Seq<u8> {
    seq![82u8, 73u8, 70u8, 70u8]
}

pub open spec fn wave_tag() -> Seq<u8> {
    seq![87u8, 65u8, 86u8, 69u8]
}

pub open spec fn fmt_tag() -> Seq<u8> {
    seq![102u8, 109u8, 116u8, 32u8]
}

pub open spec fn data_tag() -> Seq<u8> {
    seq![100u8, 97u8, 116u8, 97u8]
}

/// The position after reading `n` bytes at `pos`: reads stop at the end of the file.
pub open spec fn advance(bytes: Seq<u8>, pos: int, n: int) -> int {
    if pos + n <= bytes.len() {
        pos + n
    } else {
        bytes.len() as int
    }
}

/// The format chunk whose body starts at `i`.
pub open spec fn format_at(bytes: Seq<u8>, i: int) -> FormatChunk {
    FormatChunk {
        format: le_u16(bytes, i),
        channels: le_u16(bytes, i + 2),
        frames_per_second: le_u32(bytes, i + 4),
        avg_bytes_per_second: le_u32(bytes, i + 8),
        bytes_per_frame: le_u16(bytes, i + 12),
    }
}

/// The samples from `i` to the end of the file; an odd last byte is dropped.
pub open spec fn samples_from(bytes: Seq<u8>, i: int) -> Seq<u16> {
    Seq::new(((bytes.len() - i) / 2) as nat, |k: int| le_u16(bytes, i + 2 * k))
}

/// The decoded contents so far: the format and the samples.
pub struct WaveContents {
    pub format: FormatChunk,
    pub samples: Seq<u16>,
}

/// Reads the chunk whose header starts at `pos` into `contents`, giving the new contents and
/// the position after the chunk.
pub open spec fn read_chunk(bytes: Seq<u8>, pos: int, contents: WaveContents) -> Result<
    (WaveContents, int),
    WaveError,
> {
    let size = le_u32(bytes, pos + 4);
    let body = advance(bytes, pos, 8);
    if tag_at(bytes, pos, fmt_tag()) {
        if size != FORMAT_CHUNK_SIZE {
            Err(WaveError::FormatChunkSize)
        } else if body + 16 > bytes.len() {
            Err(WaveError::TruncatedFormatChunk)
        } else {
            Ok((WaveContents { format: format_at(bytes, body), ..contents }, body + 16))
        }
    } else if tag_at(bytes, pos, data_tag()) {
        let samples = samples_from(bytes, body);
        if samples.len() * 2 != size {
            Err(WaveError::DataChunkSize)
        } else {
            Ok((WaveContents { samples: samples, ..contents }, bytes.len() as int))
        }
    } else {
        Err(WaveError::UnknownChunk)
    }
}

/// An all-zero format chunk.
pub open spec fn empty_format() -> FormatChunk {
    FormatChunk {
        format: 0,
        channels: 0,
        frames_per_second: 0,
        avg_bytes_per_second: 0,
        bytes_per_frame: 0,
    }
}

/// Decodes the bytes of a WAVE file: the `RIFF` header and `WAVE` form type, then two chunks.
pub open spec fn decode_wave(bytes: Seq<u8>) -> Result<WaveContents, WaveError> {
    if !tag_at(bytes, 0, riff_tag()) {
        Err(WaveError::NotRiff)
    } else if !tag_at(bytes, 8, wave_tag()) {
        Err(WaveError::NotWave)
    } else {
        let start = WaveContents { format: empty_format(), samples: Seq::empty() };
        match read_chunk(bytes, 12, start) {
            Err(e) => Err(e),
            Ok((first, pos)) => match read_chunk(bytes, pos, first) {
                Err(e) => Err(e),
                Ok((second, _)) => Ok(second),
            },
        }
    }
}

impl<'a> ByteStream<'a> {
    #[verifier::type_invariant]
    spec fn in_bounds(self) -> bool {
        self.pos <= self.bytes@.len()
    }

    /// The bytes of the whole file.
    pub closed spec fn bytes(&self) -> Seq<u8> {
        self.bytes@
    }

    /// The current read position.
    pub closed spec fn position(&self) -> int {
        self.pos as int
    }

    pub fn new(bytes: &'a [u8]) -> (stream: ByteStream<'a>)
        ensures
            stream.bytes() == bytes@,
            stream.position() == 0,
    {
        ByteStream { bytes: bytes, pos: 0 }
    }

    /// The byte at `base + off`, or zero past the end.
    fn byte_at(&self, base: usize, off: usize) -> (b: u8)
        ensures
            b == byte_at(self.bytes(), base + off),
    {
        if base <= self.bytes.len() && off < self.bytes.len() - base {
            self.bytes[base + off]
        } else {
            0
        }
    }

    /// The little-endian 16-bit value at `base + off`.
    fn le_u16_at(&self, base: usize, off: usize) -> (v: u16)
        requires
            off < 16,
        ensures
            v == le_u16(self.bytes(), base + off),
    {
        let b0 = self.byte_at(base, off) as u16;
        let b1 = self.byte_at(base, off + 1) as u16;
        b0 + 256 * b1
    }

    /// The little-endian 32-bit value at `base + off`.
    fn le_u32_at(&self, base: usize, off: usize) -> (v: u32)
        requires
            off < 16,
        ensures
            v == le_u32(self.bytes(), base + off),
    {
        let b0 = self.byte_at(base, off) as u32;
        let b1 = self.byte_at(base, off + 1) as u32;
        let b2 = self.byte_at(base, off + 2) as u32;
        let b3 = self.byte_at(base, off + 3) as u32;
        b0 + 256 * b1 + 65536 * b2 + 16777216 * b3
    }

    /// Moves the read position `n` bytes forward, stopping at the end of the file.
    fn skip(&mut self, n: usize)
        ensures
            final(self).bytes() == old(self).bytes(),
            final(self).position() == advance(old(self).bytes(), old(self).position(), n as int),
    {
        proof {
            use_type_invariant(&*self);
        }
        if n <= self.bytes.len() - self.pos {
            self.pos = self.pos + n;
        } else {
            self.pos = self.bytes.len();
        }
    }

    fn tag_matches(&self, tag: [u8; 4]) -> (m: bool)
        ensures
            m == tag_at(self.bytes(), self.position(), tag@),
    {
        let pos = self.pos;
        self.byte_at(pos, 0) == tag[0] && self.byte_at(pos, 1) == tag[1] && self.byte_at(pos, 2)
            == tag[2] && self.byte_at(pos, 3) == tag[3]
    }
}

impl ChunkHeader {
    /// Reads a chunk header at the stream's position.
    pub fn from_stream(stream: &mut ByteStream) -> (header: ChunkHeader)
        ensures
            final(stream).bytes() == old(stream).bytes(),
            final(stream).position() == advance(old(stream).bytes(), old(stream).position(), 8),
            header.id@ == seq![
                byte_at(old(stream).bytes(), old(stream).position()),
                byte_at(old(stream).bytes(), old(stream).position() + 1),
                byte_at(old(stream).bytes(), old(stream).position() + 2),
                byte_at(old(stream).bytes(), old(stream).position() + 3),
            ],
            header.chunk_size == le_u32(old(stream).bytes(), old(stream).position() + 4),
    {
        proof {
            use_type_invariant(&*stream);
        }
        let pos = stream.pos;
        let header = ChunkHeader {
            id: [
                stream.byte_at(pos, 0),
                stream.byte_at(pos, 1),
                stream.byte_at(pos, 2),
                stream.byte_at(pos, 3),
            ],
            chunk_size: stream.le_u32_at(pos, 4),
        };
        stream.skip(8);
        header
    }
}

impl FormatChunk {
    pub fn new() -> (chunk: FormatChunk)
        ensures
            chunk == empty_format(),
    {
        FormatChunk {
            format: 0,
            channels: 0,
            frames_per_second: 0,
            avg_bytes_per_second: 0,
            bytes_per_frame: 0,
        }
    }

    /// Reads the body of a `fmt ` chunk whose header was just read.
    pub fn from_stream(stream: &mut ByteStream, header: ChunkHeader) -> (result: Result<FormatChunk, WaveError>)
        ensures
            final(stream).bytes() == old(stream).bytes(),
            header.chunk_size != FORMAT_CHUNK_SIZE ==> result == Err::<FormatChunk, WaveError>(WaveError::FormatChunkSize),
            header.chunk_size == FORMAT_CHUNK_SIZE && old(stream).position() + 16 > old(stream).bytes().len()
                ==> result == Err::<FormatChunk, WaveError>(WaveError::TruncatedFormatChunk),
            header.chunk_size == FORMAT_CHUNK_SIZE && old(stream).position() + 16 <= old(stream).bytes().len()
                ==> result == Ok::<FormatChunk, WaveError>(format_at(old(stream).bytes(), old(stream).position()))
                && final(stream).position() == old(stream).position() + 16,
    {
        proof {
            use_type_invariant(&*stream);
        }
        if header.chunk_size != FORMAT_CHUNK_SIZE {
            return Err(WaveError::FormatChunkSize);
        }
        if stream.bytes.len() - stream.pos < 16 {
            return Err(WaveError::TruncatedFormatChunk);
        }
        let pos = stream.pos;
        let chunk = FormatChunk {
            format: stream.le_u16_at(pos, 0),
            channels: stream.le_u16_at(pos, 2),
            frames_per_second: stream.le_u32_at(pos, 4),
            avg_bytes_per_second: stream.le_u32_at(pos, 8),
            bytes_per_frame: stream.le_u16_at(pos, 12),
        };
        stream.skip(16);
        Ok(chunk)
    }
}

impl DataChunk {
    pub fn new() -> (chunk: DataChunk)
        ensures
            chunk.samples@ == Seq::<u16>::empty(),
    {
        DataChunk { samples: Vec::new() }
    }

    /// Reads the samples of a `data` chunk whose header was just read: every pair of bytes up
    /// to the end of the file.
    pub fn from_stream(stream: &mut ByteStream, header: ChunkHeader) -> (result: Result<DataChunk, WaveError>)
        ensures
            final(stream).bytes() == old(stream).bytes(),
            final(stream).position() == old(stream).bytes().len(),
            ({
                let samples = samples_from(old(stream).bytes(), old(stream).position());
                if samples.len() * 2 == header.chunk_size {
                    result matches Ok(chunk) && chunk.samples@ == samples
                } else {
                    result == Err::<DataChunk, WaveError>(WaveError::DataChunkSize)
                }
            }),
    {
        proof {
            use_type_invariant(&*stream);
        }
        let start = stream.pos;
        let n = stream.bytes.len();
        let count = (n - start) / 2;
        let mut samples: Vec<u16> = Vec::new();
        let mut k: usize = 0;
        while k < count
            invariant
                stream.bytes() == old(stream).bytes(),
                stream.position() == start,
                start as int == old(stream).position(),
                start <= stream.bytes().len(),
                n == stream.bytes().len(),
                count == (stream.bytes().len() - start) / 2,
                k <= count,
                samples@.len() == k,
                forall|j: int| 0 <= j < k ==> samples@[j] == le_u16(stream.bytes(), start + 2 * j),
            decreases count - k,
        {
            samples.push(stream.le_u16_at(start + 2 * k, 0));
            k = k + 1;
        }
        stream.skip(stream.bytes.len() - start);
        assert(samples@ =~= samples_from(old(stream).bytes(), old(stream).position()));
        if samples.len() as u64 * 2 != header.chunk_size as u64 {
            return Err(WaveError::DataChunkSize);
        }
        Ok(DataChunk { samples: samples })
    }
}

impl Wave {
    pub fn new() -> (wave: Wave)
        ensures
            wave.format == empty_format(),
            wave.data.samples@ == Seq::<u16>::empty(),
    {
        Wave { format: FormatChunk::new(), data: DataChunk::new() }
    }

    /// The decoded contents of the wave.
    pub open spec fn contents(&self) -> WaveContents {
        WaveContents { format: self.format, samples: self.data.samples@ }
    }

    /// Reads the chunk at the stream's position into the wave.
    pub fn fill_chunk(&mut self, stream: &mut ByteStream) -> (result: Result<(), WaveError>)
        ensures
            final(stream).bytes() == old(stream).bytes(),
            match read_chunk(old(stream).bytes(), old(stream).position(), old(self).contents()) {
                Ok((contents, pos)) => result is Ok && final(self).contents() == contents
                    && final(stream).position() == pos,
                Err(e) => result == Err::<(), WaveError>(e),
            },
    {
        proof {
            use_type_invariant(&*stream);
        }
        let is_fmt = stream.tag_matches([102u8, 109u8, 116u8, 32u8]);
        let is_data = stream.tag_matches([100u8, 97u8, 116u8, 97u8]);
        let header = ChunkHeader::from_stream(stream);
        if is_fmt {
            match FormatChunk::from_stream(stream, header) {
                Ok(chunk) => {
                    self.format = chunk;
                    Ok(())
                },
                Err(e) => Err(e),
            }
        } else if is_data {
            match DataChunk::from_stream(stream, header) {
                Ok(chunk) => {
                    self.data = chunk;
                    Ok(())
                },
                Err(e) => Err(e),
            }
        } else {
            Err(WaveError::UnknownChunk)
        }
    }

    /// Decodes the bytes of a WAVE file.
    pub fn from_bytes(bytes: &[u8]) -> (result: Result<Wave, WaveError>)
        ensures
            match decode_wave(bytes@) {
                Ok(contents) => result matches Ok(wave) && wave.contents() == contents,
                Err(e) => result matches Err(err) && err == e,
            },
    {
        let mut stream = ByteStream::new(bytes);
        if !stream.tag_matches([82u8, 73u8, 70u8, 70u8]) {
            return Err(WaveError::NotRiff);
        }
        let _file_header = ChunkHeader::from_stream(&mut stream);
        proof {
            use_type_invariant(&stream);
        }
        if !stream.tag_matches([87u8, 65u8, 86u8, 69u8]) {
            return Err(WaveError::NotWave);
        }
        stream.skip(4);
        let mut wave = Wave::new();
        assert(wave.contents() == (WaveContents { format: empty_format(), samples: Seq::empty() }));
        match wave.fill_chunk(&mut stream) {
            Ok(()) => {},
            Err(e) => {
                return Err(e);
            },
        }
        proof {
            use_type_invariant(&stream);
        }
        match wave.fill_chunk(&mut stream) {
            Ok(()) => {},
            Err(e) => {
                return Err(e);
            },
        }
        Ok(wave)
    }
}

} // verus!

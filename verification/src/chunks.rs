//! The chunk log: a header followed by length-framed, checksummed records.
//!
//! A file begins with a 4-byte magic number and a 1-byte format version. From
//! offset 8 on it holds frames: an unsigned varint `len`, one encoding byte,
//! `len` payload bytes and a big-endian CRC32C over the encoding byte and
//! the payload.

use crate::checksum::checksum;
use crate::checksum::crc32c;
use crate::common::be_value;
use crate::common::CHECKSUM_SIZE;
use crate::common::header_spec;
use crate::common::read_header;
use crate::common::read_u32;
use crate::common::read_varint_u32;
use crate::common::read_varint_u32_spec;
use crate::common::slice_bytes;
use crate::common::TSDBError;
use vstd::prelude::*;

verus! {

/// Offset of the first frame.
pub const FIRST_FRAME_POS: usize = 8;

/// Size of the encoding tag of a frame.
pub const ENCODING_SIZE: usize = 1;

/// Where the checksummed part of a frame begins and where the frame ends,
/// for a frame at `pos` whose length varint holds `length` in `size` bytes.
/// `None` when the varint is absent or the frame does not fit in `buf_len` bytes.
pub open spec fn frame_extent_spec(buf_len: nat, pos: int, length: u32, size: usize) -> Option<
    (int, int),
> {
    let data = pos + size;
    let end = data + ENCODING_SIZE + length + CHECKSUM_SIZE;
    if size == 0 || pos < 0 || end > buf_len {
        None
    } else {
        Some((data, end))
    }
}

/// Lays out the frame at `pos` from its decoded length varint: returns the
/// offset of the encoding byte and the offset just past the checksum, or
/// `None` when no varint was read (`size == 0`) or the frame is cut short by
/// the end of the buffer.
pub fn frame_extent(buf_len: usize, pos: usize, length: u32, size: usize) -> (r: Option<
    (usize, usize),
>)
    ensures
        match r {
            Some((data, end)) => frame_extent_spec(buf_len as nat, pos as int, length, size)
                == Some((data as int, end as int)),
            None => frame_extent_spec(buf_len as nat, pos as int, length, size) is None,
        },
{
    if size == 0 || pos > buf_len || size > buf_len - pos {
        return None;
    }
    let data = pos + size;
    let room = buf_len - data;
    if room < ENCODING_SIZE + CHECKSUM_SIZE || length as usize > room - ENCODING_SIZE
        - CHECKSUM_SIZE {
        return None;
    }
    Some((data, data + ENCODING_SIZE + length as usize + CHECKSUM_SIZE))
}

/// The tag that names the compression scheme of a payload. The payload is
/// not decoded here, so every tag is carried as it was stored.
#[derive(Debug, Clone, Copy, PartialEq, Eq, Structural)]
pub enum Encoding {
    /// A scheme that this crate does not interpret, with its tag byte.
    Opaque(u8),
}

impl Encoding {
    /// The tag byte as stored.
    pub open spec fn tag_spec(self) -> u8 {
        match self {
            Encoding::Opaque(t) => t,
        }
    }

    /// The tag byte as stored.
    pub fn tag(&self) -> (t: u8)
        ensures
            t == self.tag_spec(),
    {
        match self {
            Encoding::Opaque(t) => *t,
        }
    }
}

/// A well-formed frame of a chunk log, as a mathematical value.
pub struct Frame {
    /// Offset of the first byte of the length varint.
    pub offset: int,
    /// Number of payload bytes.
    pub length: nat,
    /// The encoding tag.
    pub encoding: u8,
    /// The payload bytes.
    pub payload: Seq<u8>,
    /// The stored checksum.
    pub checksum: u32,
    /// Offset just past the stored checksum.
    pub end: int,
}

/// The frame that starts at `pos`, if a whole frame stands there and its
/// stored checksum equals the CRC32C of its encoding byte and payload.
pub open spec fn frame_at(buf: Seq<u8>, pos: int) -> Option<Frame> {
    match read_varint_u32_spec(buf, pos) {
        Ok((length, size)) => match frame_extent_spec(buf.len(), pos, length, size) {
            Some((data, end)) => {
                let stored = be_value(buf.subrange(end - CHECKSUM_SIZE, end)) as u32;
                if crc32c(buf.subrange(data, end - CHECKSUM_SIZE)) == stored {
                    Some(
                        Frame {
                            offset: pos,
                            length: length as nat,
                            encoding: buf[data],
                            payload: buf.subrange(data + ENCODING_SIZE, end - CHECKSUM_SIZE),
                            checksum: stored,
                            end,
                        },
                    )
                } else {
                    None
                }
            },
            None => None,
        },
        Err(_) => None,
    }
}

/// One record of the chunk log, produced per step and not retained.
#[derive(Debug, Clone, Copy)]
pub struct ChunkRecord<'a> {
    /// Offset of the record in the chunk log: its identity, and what the
    /// chunk references of a series point to.
    pub offset: usize,
    /// Number of payload bytes.
    pub length: usize,
    /// The encoding tag of the payload.
    pub encoding: Encoding,
    /// The payload, undecoded.
    pub payload: &'a [u8],
    /// The stored checksum, equal to the CRC32C of tag and payload.
    pub checksum: u32,
}

impl<'a> ChunkRecord<'a> {
    /// Whether this record is the frame `f`.
    pub open spec fn is_frame(self, f: Frame) -> bool {
        &&& self.offset == f.offset
        &&& self.length == f.length
        &&& self.encoding.tag_spec() == f.encoding
        &&& self.payload@ == f.payload
        &&& self.checksum == f.checksum
    }
}

/// Reads the frame at `pos` and verifies its checksum. Returns the record
/// and the offset just past it exactly when `frame_at` describes a frame there.
pub fn read_frame<'a>(buf: &'a [u8], pos: usize) -> (r: Option<(ChunkRecord<'a>, usize)>)
    ensures
        match r {
            Some((record, end)) => frame_at(buf@, pos as int) matches Some(f) && record.is_frame(f)
                && end == f.end,
            None => frame_at(buf@, pos as int) is None,
        },
{
    let (length, size) = match read_varint_u32(buf, pos) {
        Ok(found) => found,
        Err(_) => { return None; },
    };
    let (data, end) = match frame_extent(buf.len(), pos, length, size) {
        Some(extent) => extent,
        None => { return None; },
    };
    let covered = match slice_bytes(buf, ENCODING_SIZE + length as usize, data) {
        Ok(s) => s,
        Err(_) => { return None; },
    };
    let stored = match read_u32(buf, end - CHECKSUM_SIZE) {
        Ok(v) => v,
        Err(_) => { return None; },
    };
    if checksum(covered) != stored {
        return None;
    }
    let payload = match slice_bytes(buf, length as usize, data + ENCODING_SIZE) {
        Ok(s) => s,
        Err(_) => { return None; },
    };
    let record = ChunkRecord {
        offset: pos,
        length: length as usize,
        encoding: Encoding::Opaque(buf[data]),
        payload,
        checksum: stored,
    };
    Some((record, end))
}

/// The offsets of the frames that a scan from `pos` yields: the frame at
/// `pos`, then those from its end on, up to the first position where no
/// well-formed frame stands.
pub open spec fn frame_offsets(buf: Seq<u8>, pos: int) -> Seq<int>
    decreases buf.len() - pos,
{
    match frame_at(buf, pos) {
        Some(f) => seq![pos] + frame_offsets(buf, f.end),
        None => seq![],
    }
}

/// A reader over a chunk log: the bytes of the file and a cursor.
///
/// The sequence of offsets is finite and forward-only. Once a step has
/// returned `None` every later step does so too.
#[derive(Debug)]
pub struct Chunks {
    buf: Vec<u8>,
    current_pos: usize,
    magic: u32,
    version: u8,
}

impl Chunks {
    #[verifier::type_invariant]
    spec fn header_recorded(self) -> bool {
        header_spec(self.buf@) == Ok::<(u32, u8), TSDBError>((self.magic, self.version))
    }

    /// The bytes of the file.
    pub closed spec fn bytes(self) -> Seq<u8> {
        self.buf@
    }

    /// The offset at which the next step looks for a frame.
    pub closed spec fn cursor(self) -> usize {
        self.current_pos
    }

    /// The magic number of the header.
    pub closed spec fn magic_spec(self) -> u32 {
        self.magic
    }

    /// The format version of the header.
    pub closed spec fn version_spec(self) -> u8 {
        self.version
    }

    /// Takes the bytes of a chunk file, reads the magic number at offset 0
    /// and the format version at offset 4, and places the cursor at offset 8.
    ///
    /// The version is recorded and not judged. Fails with `OutOfRange`
    /// exactly when the file is too short to hold the header fields.
    pub fn new(buf: Vec<u8>) -> (r: Result<Chunks, TSDBError>)
        ensures
            match header_spec(buf@) {
                Ok((magic, version)) => {
                    &&& r matches Ok(chunks)
                    &&& chunks.bytes() == buf@
                    &&& chunks.cursor() == FIRST_FRAME_POS
                    &&& chunks.magic_spec() == magic
                    &&& chunks.version_spec() == version
                },
                Err(e) => r matches Err(got) && got == e,
            },
    {
        let (magic, version) = match read_header(buf.as_slice()) {
            Ok(found) => found,
            Err(e) => { return Err(e); },
        };
        Ok(Chunks { buf, current_pos: FIRST_FRAME_POS, magic, version })
    }

    /// The magic number that the file begins with.
    pub fn magic(&self) -> (m: u32)
        ensures
            m == self.magic_spec(),
            header_spec(self.bytes()) matches Ok(header) && header.0 == m,
    {
        proof {
            use_type_invariant(self);
        }
        self.magic
    }

    /// The format version of the file.
    pub fn version(&self) -> (v: u8)
        ensures
            v == self.version_spec(),
            header_spec(self.bytes()) matches Ok(header) && header.1 == v,
    {
        proof {
            use_type_invariant(self);
        }
        self.version
    }

    /// The offset at which the next step looks for a frame.
    pub fn position(&self) -> (p: usize)
        ensures
            p == self.cursor(),
    {
        self.current_pos
    }

    /// The record at `offset`, if a well-formed frame stands there.
    pub fn record_at(&self, offset: usize) -> (r: Option<ChunkRecord<'_>>)
        ensures
            match r {
                Some(record) => frame_at(self.bytes(), offset as int) matches Some(f)
                    && record.is_frame(f),
                None => frame_at(self.bytes(), offset as int) is None,
            },
    {
        match read_frame(self.buf.as_slice(), offset) {
            Some((record, _)) => Some(record),
            None => None,
        }
    }

    /// One step of the scan. Where a well-formed frame stands at the cursor,
    /// returns its offset and moves the cursor past its checksum. Anywhere
    /// else (end of data, a varint that does not decode, a frame cut short,
    /// a checksum that does not match) it returns `None` and leaves the
    /// cursor where it is, so that the sequence stays ended.
    pub fn next(&mut self) -> (r: Option<usize>)
        ensures
            final(self).bytes() == old(self).bytes(),
            final(self).magic_spec() == old(self).magic_spec(),
            final(self).version_spec() == old(self).version_spec(),
            match frame_at(old(self).bytes(), old(self).cursor() as int) {
                Some(f) => r == Some(old(self).cursor()) && final(self).cursor() == f.end,
                None => r is None && final(self).cursor() == old(self).cursor(),
            },
    {
        proof {
            use_type_invariant(&*self);
        }
        let start = self.current_pos;
        match read_frame(self.buf.as_slice(), start) {
            Some((_, end)) => {
                self.current_pos = end;
                Some(start)
            },
            None => None,
        }
    }

    /// Runs the scan from the cursor to its end and returns the offsets of
    /// the frames it passed, in the order of the file.
    pub fn offsets(&mut self) -> (r: Vec<usize>)
        ensures
            final(self).bytes() == old(self).bytes(),
            final(self).magic_spec() == old(self).magic_spec(),
            final(self).version_spec() == old(self).version_spec(),
            r@.map_values(|o: usize| o as int) == frame_offsets(
                old(self).bytes(),
                old(self).cursor() as int,
            ),
            frame_at(final(self).bytes(), final(self).cursor() as int) is None,
    {
        let mut found: Vec<usize> = Vec::new();
        let ghost buf = self.bytes();
        let ghost start = self.cursor() as int;
        assert(found@.map_values(|o: usize| o as int) + frame_offsets(buf, start)
            == frame_offsets(buf, start));
        loop
            invariant
                self.bytes() == buf,
                self.magic_spec() == old(self).magic_spec(),
                self.version_spec() == old(self).version_spec(),
                found@.map_values(|o: usize| o as int) + frame_offsets(buf, self.cursor() as int)
                    == frame_offsets(buf, start),
            ensures
                found@.map_values(|o: usize| o as int) == frame_offsets(buf, start),
                frame_at(buf, self.cursor() as int) is None,
            decreases buf.len() - self.cursor(),
        {
            let ghost before = found@.map_values(|o: usize| o as int);
            let ghost at = self.cursor() as int;
            match self.next() {
                Some(offset) => {
                    found.push(offset);
                    proof {
                        let f = frame_at(buf, at)->Some_0;
                        assert(found@.map_values(|o: usize| o as int) == before + seq![at]);
                        assert((before + seq![at]) + frame_offsets(buf, f.end) == before + (
                        seq![at] + frame_offsets(buf, f.end)));
                    }
                },
                None => {
                    assert(before + Seq::<int>::empty() == before);
                    break ;
                },
            }
        }
        found
    }
}

/// The checksum of a well-formed frame is the CRC32C of its encoding byte
/// followed by its payload, and the frame lies within the buffer.
pub proof fn lemma_frame_checksum(buf: Seq<u8>, pos: int)
    requires
        frame_at(buf, pos) is Some,
    ensures
        ({
            let f = frame_at(buf, pos)->Some_0;
            &&& f.checksum == crc32c(seq![f.encoding] + f.payload)
            &&& f.payload.len() == f.length
            &&& 0 <= pos < f.end <= buf.len()
            &&& f.end - pos >= 1 + ENCODING_SIZE + f.length + CHECKSUM_SIZE
        }),
{
    let f = frame_at(buf, pos)->Some_0;
    let (length, size) = read_varint_u32_spec(buf, pos)->Ok_0;
    let data = pos + size;
    assert(buf.subrange(data, f.end - CHECKSUM_SIZE) == seq![f.encoding] + f.payload);
}

/// A frame that fits in the buffer is accepted exactly when its stored
/// checksum equals the CRC32C computed over its encoding byte and payload.
pub proof fn lemma_accepts_exactly_matching_checksum(
    buf: Seq<u8>,
    pos: int,
    length: u32,
    size: usize,
    data: int,
    end: int,
)
    requires
        read_varint_u32_spec(buf, pos) == Ok::<(u32, usize), TSDBError>((length, size)),
        frame_extent_spec(buf.len(), pos, length, size) == Some((data, end)),
    ensures
        frame_at(buf, pos) is Some <==> be_value(buf.subrange(end - CHECKSUM_SIZE, end)) as u32
            == crc32c(
            seq![buf[data]] + buf.subrange(data + ENCODING_SIZE, end - CHECKSUM_SIZE),
        ),
{
    assert(buf.subrange(data, end - CHECKSUM_SIZE) == seq![buf[data]] + buf.subrange(
        data + ENCODING_SIZE,
        end - CHECKSUM_SIZE,
    ));
}

/// Where no well-formed frame stands, the scan yields nothing more: a
/// rejected record is not yielded, and nothing after it is.
pub proof fn lemma_rejection_ends_scan(buf: Seq<u8>, pos: int)
    requires
        frame_at(buf, pos) is None,
    ensures
        frame_offsets(buf, pos) == Seq::<int>::empty(),
{
}

/// A record that the end of the buffer cuts short is not a frame: the scan
/// ends there and reads nothing past the end.
pub proof fn lemma_truncated_frame_ends_scan(buf: Seq<u8>, pos: int, length: u32, size: usize)
    requires
        read_varint_u32_spec(buf, pos) == Ok::<(u32, usize), TSDBError>((length, size)),
        pos + size + ENCODING_SIZE + length + CHECKSUM_SIZE > buf.len(),
    ensures
        frame_at(buf, pos) is None,
        frame_offsets(buf, pos) == Seq::<int>::empty(),
{
}

/// Every offset of a scan holds a well-formed frame, and the scan goes on
/// from the end of that frame.
pub proof fn lemma_offsets_are_frames(buf: Seq<u8>, pos: int, i: int)
    requires
        0 <= i < frame_offsets(buf, pos).len(),
    ensures
        frame_at(buf, frame_offsets(buf, pos)[i]) is Some,
        frame_offsets(buf, pos)[i] >= pos,
        frame_offsets(buf, pos).skip(i) == frame_offsets(buf, frame_offsets(buf, pos)[i]),
    decreases i,
{
    let f = frame_at(buf, pos)->Some_0;
    if i == 0 {
        assert(frame_offsets(buf, pos).skip(0) == frame_offsets(buf, pos));
    } else {
        lemma_offsets_are_frames(buf, f.end, i - 1);
        assert(frame_offsets(buf, pos).skip(i) == frame_offsets(buf, f.end).skip(i - 1));
    }
}

/// The offsets of a scan are strictly increasing.
pub proof fn lemma_offsets_increasing(buf: Seq<u8>, pos: int, i: int, j: int)
    requires
        0 <= i < j < frame_offsets(buf, pos).len(),
    ensures
        frame_offsets(buf, pos)[i] < frame_offsets(buf, pos)[j],
    decreases j,
{
    let f = frame_at(buf, pos)->Some_0;
    if i == 0 {
        lemma_offsets_are_frames(buf, f.end, j - 1);
    } else {
        lemma_offsets_increasing(buf, f.end, i - 1, j - 1);
    }
}

} // verus!

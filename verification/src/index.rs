//! The index file: a header, the sections, and at the tail a table of
//! contents that says where the sections begin.
//!
//! A file begins with a 4-byte magic number and a 1-byte format version. Its
//! last 52 bytes are six big-endian 64-bit offsets and the CRC32C of those
//! 48 bytes.

use crate::checksum::checksum;
use crate::checksum::crc32c;
use crate::common::be_value;
use crate::common::CHECKSUM_SIZE;
use crate::common::header_spec;
use crate::common::read_header;
use crate::common::read_u32;
use crate::common::read_u64;
use crate::common::slice_bytes;
use crate::common::TSDBError;
pub use crate::series::Series;
pub use crate::series::SeriesChunk;
pub use crate::series::SeriesItem;
use crate::symbols::is_symbol;
use crate::symbols::read_symbol_at;
use crate::symbols::symbol_at;
use crate::symbols::symbol_block_spec;
pub use crate::symbols::SymbolTable;
use vstd::prelude::*;

verus! {

/// Size of one offset of the table of contents.
pub const TOC_ENTRY_SIZE: usize = 8;

/// Size of the table of contents without its checksum.
pub const TOC_SIZE: usize = 48;

/// The table of contents: where each section of the index file begins.
///
/// The label index and the postings are not decoded by this crate; their
/// offsets are handed on as they are stored.
#[derive(Debug, Clone, Copy, PartialEq, Eq, Structural)]
pub struct TOC {
    /// Offset of the symbol block.
    pub symbols: u64,
    /// Offset of the first series record.
    pub series: u64,
    /// Offset of the label index, which is also the end of the series.
    pub label_index_start: u64,
    /// Offset of the table of label index offsets.
    pub label_offset_table: u64,
    /// Offset of the postings.
    pub postings_start: u64,
    /// Offset of the table of postings offsets.
    pub postings_offset_table: u64,
}

/// The offset with the number `k`, counted from 0, of a table of contents
/// whose 48 bytes are `table`.
pub open spec fn toc_entry(table: Seq<u8>, k: int) -> u64 {
    be_value(table.subrange(k * TOC_ENTRY_SIZE, (k + 1) * TOC_ENTRY_SIZE)) as u64
}

/// The table of contents of the index file `buf`.
///
/// `OutOfRange` where the file is shorter than a table of contents and its
/// checksum, `ChecksumMismatch` where the stored checksum is not the CRC32C
/// of the 48 bytes before it.
pub open spec fn toc_spec(buf: Seq<u8>) -> Result<TOC, TSDBError> {
    if buf.len() < TOC_SIZE + CHECKSUM_SIZE {
        Err(TSDBError::OutOfRange)
    } else {
        let pos = buf.len() - TOC_SIZE - CHECKSUM_SIZE;
        let table = buf.subrange(pos, pos + TOC_SIZE);
        let stored = be_value(buf.subrange(pos + TOC_SIZE, buf.len() as int)) as u32;
        if crc32c(table) != stored {
            Err(TSDBError::ChecksumMismatch)
        } else {
            Ok(
                TOC {
                    symbols: toc_entry(table, 0),
                    series: toc_entry(table, 1),
                    label_index_start: toc_entry(table, 2),
                    label_offset_table: toc_entry(table, 3),
                    postings_start: toc_entry(table, 4),
                    postings_offset_table: toc_entry(table, 5),
                },
            )
        }
    }
}

/// The bytes of the series region that `toc` marks out in `buf`: from the
/// offset of the series to the offset of the label index. `OutOfRange`
/// where the two offsets are out of order or past the end of the file.
pub open spec fn series_region_spec(buf: Seq<u8>, toc: TOC) -> Result<Seq<u8>, TSDBError> {
    if toc.series <= toc.label_index_start <= buf.len() {
        Ok(buf.subrange(toc.series as int, toc.label_index_start as int))
    } else {
        Err(TSDBError::OutOfRange)
    }
}

/// An opened index file: its bytes and its table of contents.
#[derive(Debug)]
pub struct Index<'a> {
    buf: &'a [u8],
    toc: TOC,
    magic: u32,
    version: u8,
}

impl<'a> Index<'a> {
    #[verifier::type_invariant]
    spec fn contents_recorded(self) -> bool {
        &&& toc_spec(self.buf@) == Ok::<TOC, TSDBError>(self.toc)
        &&& header_spec(self.buf@) == Ok::<(u32, u8), TSDBError>((self.magic, self.version))
    }

    /// The bytes of the file.
    pub closed spec fn bytes(self) -> Seq<u8> {
        self.buf@
    }

    /// The table of contents of the file.
    pub closed spec fn contents(self) -> TOC {
        self.toc
    }

    /// The magic number of the header.
    pub closed spec fn magic_spec(self) -> u32 {
        self.magic
    }

    /// The format version of the header.
    pub closed spec fn version_spec(self) -> u8 {
        self.version
    }

    /// Opens the index file whose bytes are `buf`: reads the magic number
    /// and the format version, then the table of contents at the tail.
    ///
    /// Succeeds exactly when the table of contents is there and its
    /// checksum matches; the version is recorded and not judged.
    pub fn new(buf: &'a [u8]) -> (r: Result<Index<'a>, TSDBError>)
        ensures
            match toc_spec(buf@) {
                Ok(toc) => {
                    &&& r matches Ok(index)
                    &&& index.bytes() == buf@
                    &&& index.contents() == toc
                    &&& header_spec(buf@) == Ok::<(u32, u8), TSDBError>(
                        (index.magic_spec(), index.version_spec()),
                    )
                },
                Err(e) => r matches Err(got) && got == e,
            },
    {
        let (magic, version) = match read_header(buf) {
            Ok(found) => found,
            Err(e) => { return Err(e); },
        };
        let toc = match Index::toc(buf) {
            Ok(t) => t,
            Err(e) => { return Err(e); },
        };
        Ok(Index { buf, toc, magic, version })
    }

    /// Reads and verifies the table of contents at the tail of `buf`.
    pub fn toc(buf: &[u8]) -> (r: Result<TOC, TSDBError>)
        ensures
            r == toc_spec(buf@),
    {
        if buf.len() < TOC_SIZE + CHECKSUM_SIZE {
            return Err(TSDBError::OutOfRange);
        }
        let pos = buf.len() - TOC_SIZE - CHECKSUM_SIZE;
        let table = match slice_bytes(buf, TOC_SIZE, pos) {
            Ok(s) => s,
            Err(e) => { return Err(e); },
        };
        let stored = match read_u32(buf, pos + TOC_SIZE) {
            Ok(v) => v,
            Err(e) => { return Err(e); },
        };
        if checksum(table) != stored {
            return Err(TSDBError::ChecksumMismatch);
        }
        let mut entries: [u64; 6] = [0; 6];
        let mut k: usize = 0;
        while k < 6
            invariant
                k <= 6,
                table@.len() == TOC_SIZE,
                forall|j: int| 0 <= j < k ==> entries[j] == toc_entry(table@, j),
            decreases 6 - k,
        {
            let entry = match read_u64(table, k * TOC_ENTRY_SIZE) {
                Ok(v) => v,
                Err(e) => { return Err(e); },
            };
            entries[k] = entry;
            k += 1;
        }
        Ok(
            TOC {
                symbols: entries[0],
                series: entries[1],
                label_index_start: entries[2],
                label_offset_table: entries[3],
                postings_start: entries[4],
                postings_offset_table: entries[5],
            },
        )
    }

    /// The table of contents of the file.
    pub fn table_of_contents(&self) -> (toc: TOC)
        ensures
            toc == self.contents(),
            toc_spec(self.bytes()) == Ok::<TOC, TSDBError>(toc),
    {
        proof {
            use_type_invariant(self);
        }
        self.toc
    }

    /// The magic number that the file begins with.
    pub fn magic(&self) -> (m: u32)
        ensures
            m == self.magic_spec(),
            header_spec(self.bytes()) matches Ok(header) && header.0 == m,
    {
        proof {
            use_type_invariant(self);
        }
        self.magic
    }

    /// The format version of the file.
    pub fn version(&self) -> (v: u8)
        ensures
            v == self.version_spec(),
            header_spec(self.bytes()) matches Ok(header) && header.1 == v,
    {
        proof {
            use_type_invariant(self);
        }
        self.version
    }

    /// Reads the string of the symbol entry that begins at the offset
    /// `pos` of the file.
    pub fn read_symbol(&self, pos: usize) -> (r: Result<String, TSDBError>)
        ensures
            is_symbol(r, symbol_at(self.bytes(), pos as int)),
    {
        read_symbol_at(self.buf, pos)
    }
}

/// Opens the symbol table of the index: reads the symbol block at the
/// offset that the table of contents gives and verifies its checksum.
pub fn symbol_table<'a>(i: &Index<'a>) -> (r: Result<SymbolTable<'a>, TSDBError>)
    ensures
        match symbol_block_spec(i.bytes(), i.contents().symbols as int) {
            Ok((entries, count)) => r matches Ok(table) && table.bytes() == entries
                && table.count() == count && table.cursor() == 0,
            Err(e) => r matches Err(got) && got == e,
        },
{
    let at = i.toc.symbols;
    if at > usize::MAX as u64 {
        assert(i.buf@.len() == i.buf.len());
        return Err(TSDBError::OutOfRange);
    }
    SymbolTable::new(i.buf, at as usize)
}

/// Opens the series catalog of the index: a reader at the start of the
/// region between the offset of the series and that of the label index.
pub fn series<'a>(i: &Index<'a>) -> (r: Result<Series<'a>, TSDBError>)
    ensures
        match series_region_spec(i.bytes(), i.contents()) {
            Ok(region) => r matches Ok(reader) && reader.bytes() == region && reader.cursor()
                == 0,
            Err(e) => r matches Err(got) && got == e,
        },
{
    let start = i.toc.series;
    let end = i.toc.label_index_start;
    if start > end || end > i.buf.len() as u64 {
        return Err(TSDBError::OutOfRange);
    }
    let region = match slice_bytes(i.buf, (end - start) as usize, start as usize) {
        Ok(s) => s,
        Err(e) => { return Err(e); },
    };
    Ok(Series::new(region))
}

} // verus!

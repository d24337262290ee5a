//! The symbol table: the strings that the rest of the index refers to by
//! number.
//!
//! The entries are a concatenation of `(uvarint length, UTF-8 bytes)`
//! pairs. They are numbered densely from 1 in the order of the bytes.

use crate::checksum::checksum;
use crate::checksum::crc32c;
use crate::common::be_value;
use crate::common::CHECKSUM_SIZE;
use crate::common::read_u32;
use crate::common::read_u32_spec;
use crate::common::read_varint_u32;
use crate::common::read_varint_u32_spec;
use crate::common::slice_bytes;
use crate::common::TSDBError;
use vstd::prelude::*;
use vstd::utf8::decode_utf8;
use vstd::utf8::encode_utf8;
use vstd::utf8::valid_utf8;

verus! {

/// The error type of `core::str::from_utf8`, carried through unread.
#[verifier::external_type_specification]
#[verifier::external_body]
pub struct ExUtf8Error(core::str::Utf8Error);

/// `core::str::from_utf8` succeeds exactly on valid UTF-8, and the string
/// slice it returns is made of the bytes it was given.
pub assume_specification[ core::str::from_utf8 ](v: &[u8]) -> (r: Result<
    &str,
    core::str::Utf8Error,
>)
    ensures
        r is Ok <==> valid_utf8(v@),
        r matches Ok(s) ==> encode_utf8(s@) == v@,
;

/// Where the bytes of the entry at `pos` begin and where the entry ends;
/// `None` where no whole entry stands.
pub open spec fn entry_extent(buf: Seq<u8>, pos: int) -> Option<(int, int)> {
    match read_varint_u32_spec(buf, pos) {
        Ok((len, size)) => if size == 0 || pos < 0 || pos + size + len > buf.len() {
            None
        } else {
            Some((pos + size, pos + size + len))
        },
        Err(_) => None,
    }
}

/// Where the entry at `pos` ends; `None` where no whole entry stands.
pub open spec fn entry_end(buf: Seq<u8>, pos: int) -> Option<int> {
    match entry_extent(buf, pos) {
        Some((_, end)) => Some(end),
        None => None,
    }
}

/// Where the entry after the first `k` entries begins: 0 for `k == 0`, else
/// the end of entry `k`. `None` where fewer than `k` whole entries stand.
pub open spec fn entry_start(buf: Seq<u8>, k: nat) -> Option<int>
    decreases k,
{
    if k == 0 {
        Some(0)
    } else {
        match entry_start(buf, (k - 1) as nat) {
            Some(p) => entry_end(buf, p),
            None => None,
        }
    }
}

/// The string of the entry at `pos`.
///
/// `MalformedVarint` where the length does not decode, `OutOfRange` where
/// no length or not all of the bytes are there, `InvalidUtf8` where the
/// bytes are not UTF-8.
pub open spec fn symbol_at(buf: Seq<u8>, pos: int) -> Result<Seq<char>, TSDBError> {
    match read_varint_u32_spec(buf, pos) {
        Ok((len, size)) => if size == 0 || pos < 0 || pos + size + len > buf.len() {
            Err(TSDBError::OutOfRange)
        } else {
            let data = buf.subrange(pos + size, pos + size + len);
            if valid_utf8(data) {
                Ok(decode_utf8(data))
            } else {
                Err(TSDBError::InvalidUtf8)
            }
        },
        Err(e) => Err(e),
    }
}

/// Whether `r` is the outcome `expected`: the same error, or a string of
/// the same characters.
pub open spec fn is_symbol(
    r: Result<String, TSDBError>,
    expected: Result<Seq<char>, TSDBError>,
) -> bool {
    match expected {
        Ok(chars) => r matches Ok(s) && s@ == chars,
        Err(e) => r matches Err(got) && got == e,
    }
}

/// Finds the extent of the entry at `pos`: the offset of its bytes and the
/// offset just past them.
pub fn read_entry(buf: &[u8], pos: usize) -> (r: Option<(usize, usize)>)
    ensures
        match r {
            Some((data, end)) => entry_extent(buf@, pos as int) == Some((data as int, end as int))
                && pos < data <= end <= buf@.len(),
            None => entry_extent(buf@, pos as int) is None,
        },
{
    let (len, size) = match read_varint_u32(buf, pos) {
        Ok(found) => found,
        Err(_) => { return None; },
    };
    if size == 0 {
        return None;
    }
    assert(pos + size <= buf.len());
    let data = pos + size;
    if len as usize > buf.len() - data {
        return None;
    }
    Some((data, data + len as usize))
}

/// Reads the string of the entry at `pos` in `buf`.
pub fn read_symbol_at(buf: &[u8], pos: usize) -> (r: Result<String, TSDBError>)
    ensures
        is_symbol(r, symbol_at(buf@, pos as int)),
{
    let (len, size) = match read_varint_u32(buf, pos) {
        Ok(found) => found,
        Err(e) => { return Err(e); },
    };
    if size == 0 {
        return Err(TSDBError::OutOfRange);
    }
    assert(pos + size <= buf.len());
    let data = match slice_bytes(buf, len as usize, pos + size) {
        Ok(s) => s,
        Err(e) => { return Err(e); },
    };
    match core::str::from_utf8(data) {
        Ok(s) => {
            proof {
                vstd::utf8::encode_utf8_decode_utf8(s@);
            }
            Ok(s.to_owned())
        },
        Err(_) => Err(TSDBError::InvalidUtf8),
    }
}

/// Size of the length field in front of a symbol block.
pub const SYMBOLS_LEN_SIZE: usize = 4;

/// Size of the symbol count at the end of a symbol block.
pub const NUM_SYMBOLS_SIZE: usize = 4;

/// The entries and the symbol count of the symbol block at `pos` of an
/// index file.
///
/// The block is a 4-byte length `L`, a region of `L` bytes and the CRC32C
/// of the region. The last four bytes of the region are the number of
/// symbols; the bytes before them are the entries. `OutOfRange` where the
/// block does not fit in the file or the region is too short for its count,
/// `ChecksumMismatch` where the stored checksum is not that of the region.
pub open spec fn symbol_block_spec(buf: Seq<u8>, pos: int) -> Result<(Seq<u8>, u32), TSDBError> {
    match read_u32_spec(buf, pos) {
        Ok(len) => {
            let start = pos + SYMBOLS_LEN_SIZE;
            let end = start + len;
            if end + CHECKSUM_SIZE > buf.len() || len < NUM_SYMBOLS_SIZE {
                Err(TSDBError::OutOfRange)
            } else if crc32c(buf.subrange(start, end)) != be_value(
                buf.subrange(end, end + CHECKSUM_SIZE),
            ) as u32 {
                Err(TSDBError::ChecksumMismatch)
            } else {
                Ok(
                    (
                        buf.subrange(start, end - NUM_SYMBOLS_SIZE),
                        be_value(buf.subrange(end - NUM_SYMBOLS_SIZE, end)) as u32,
                    ),
                )
            }
        },
        Err(e) => Err(e),
    }
}

/// What looking up the ordinal `n` yields in a table of `count` symbols
/// whose entries are `buf`: the string of the `n`-th entry.
///
/// `SymbolTableLookup` where `n` is zero, beyond the count or beyond the
/// whole entries that the bytes hold. The result is a function of the
/// entries, the count and `n` alone.
pub open spec fn lookup_spec(buf: Seq<u8>, count: u32, n: int) -> Result<Seq<char>, TSDBError> {
    if n < 1 || n > count {
        Err(TSDBError::SymbolTableLookup)
    } else {
        match entry_start(buf, n as nat) {
            Some(_) => symbol_at(buf, entry_start(buf, (n - 1) as nat)->Some_0),
            None => Err(TSDBError::SymbolTableLookup),
        }
    }
}

/// The strings that stepping through the entries from `pos` yields: the
/// entries in order, up to the first position where no whole entry stands
/// or the bytes of an entry are not UTF-8.
pub open spec fn symbols_from(buf: Seq<u8>, pos: int) -> Seq<Seq<char>>
    decreases buf.len() - pos,
{
    match entry_end(buf, pos) {
        Some(end) => match symbol_at(buf, pos) {
            Ok(chars) => seq![chars] + symbols_from(buf, end),
            Err(_) => Seq::empty(),
        },
        None => Seq::empty(),
    }
}

/// Whether `positions` are the boundaries of the first entries of `buf`:
/// the first is 0 and each next one is the end of the entry before it.
pub open spec fn are_boundaries(buf: Seq<u8>, positions: Seq<usize>) -> bool {
    &&& positions.len() >= 1
    &&& positions[0] == 0
    &&& forall|k: int| 0 <= k < positions.len() - 1 ==> #[trigger] is_entry(buf, positions, k)
}

/// Whether an entry of `buf` lies between the boundaries `k` and `k + 1`.
pub open spec fn is_entry(buf: Seq<u8>, positions: Seq<usize>, k: int) -> bool {
    entry_end(buf, positions[k] as int) == Some(positions[k + 1] as int)
}

/// Boundaries are the starts that `entry_start` counts out.
pub proof fn lemma_boundaries_are_starts(buf: Seq<u8>, positions: Seq<usize>, k: nat)
    requires
        are_boundaries(buf, positions),
        k < positions.len(),
    ensures
        entry_start(buf, k) == Some(positions[k as int] as int),
    decreases k,
{
    if k > 0 {
        lemma_boundaries_are_starts(buf, positions, (k - 1) as nat);
        assert(is_entry(buf, positions, k - 1));
    }
}

/// Where the entries run out they stay run out.
pub proof fn lemma_no_start_after_end(buf: Seq<u8>, k: nat, m: nat)
    requires
        entry_start(buf, k) is None,
        k <= m,
    ensures
        entry_start(buf, m) is None,
    decreases m,
{
    if k < m {
        lemma_no_start_after_end(buf, k, (m - 1) as nat);
    }
}

/// The ordinal 1 is the first entry of the bytes.
pub proof fn lemma_lookup_first(buf: Seq<u8>, count: u32)
    requires
        count >= 1,
        entry_end(buf, 0) is Some,
    ensures
        lookup_spec(buf, count, 1) == symbol_at(buf, 0),
{
    reveal_with_fuel(entry_start, 2);
}

/// An ordinal beyond the stored count is not found, and neither is zero.
pub proof fn lemma_lookup_outside_count(buf: Seq<u8>, count: u32, n: int)
    requires
        n < 1 || n > count,
    ensures
        lookup_spec(buf, count, n) == Err::<Seq<char>, TSDBError>(TSDBError::SymbolTableLookup),
{
}

/// An ordinal beyond the whole entries that the bytes hold is not found.
pub proof fn lemma_lookup_beyond_entries(buf: Seq<u8>, count: u32, k: nat, n: int)
    requires
        entry_start(buf, k) is None,
        k <= n,
    ensures
        lookup_spec(buf, count, n) == Err::<Seq<char>, TSDBError>(TSDBError::SymbolTableLookup),
{
    if 1 <= n <= count {
        lemma_no_start_after_end(buf, k, n as nat);
    }
}

/// Two lookups of one ordinal in one table agree: both fail with the same
/// error, or both give the same string.
pub proof fn lemma_lookup_repeatable(
    first: Result<String, TSDBError>,
    second: Result<String, TSDBError>,
    buf: Seq<u8>,
    count: u32,
    n: int,
)
    requires
        is_symbol(first, lookup_spec(buf, count, n)),
        is_symbol(second, lookup_spec(buf, count, n)),
    ensures
        match first {
            Ok(s) => second matches Ok(t) && s@ == t@,
            Err(e) => second matches Err(f) && e == f,
        },
{
}

/// Whether `positions` are the boundaries of all the whole entries of
/// `buf`: boundaries, with no whole entry left behind the last.
pub open spec fn are_all_boundaries(buf: Seq<u8>, positions: Seq<usize>) -> bool {
    &&& are_boundaries(buf, positions)
    &&& entry_end(buf, positions.last() as int) is None
}

/// Finds the boundaries of all the whole entries of `buf`.
pub fn index_entries(buf: &[u8]) -> (positions: Vec<usize>)
    ensures
        are_all_boundaries(buf@, positions@),
{
    let mut positions: Vec<usize> = Vec::new();
    positions.push(0);
    let mut at: usize = 0;
    loop
        invariant
            are_boundaries(buf@, positions@),
            positions@.last() == at,
        ensures
            are_all_boundaries(buf@, positions@),
        decreases buf@.len() - at,
    {
        match read_entry(buf, at) {
            Some((_, end)) => {
                let ghost before = positions@;
                positions.push(end);
                assert forall|k: int| 0 <= k < positions@.len() - 1 implies #[trigger] is_entry(
                    buf@,
                    positions@,
                    k,
                ) by {
                    if k < before.len() - 1 {
                        assert(is_entry(buf@, before, k));
                    }
                }
                at = end;
            },
            None => {
                break ;
            },
        }
    }
    positions
}

/// A symbol table: the entries of a symbol block, the stored number of
/// symbols, the boundaries of all the entries, and a cursor for stepping
/// through them.
///
/// The boundaries are found once, when the table is made. A lookup reads
/// them and changes nothing.
#[derive(Debug)]
pub struct SymbolTable<'a> {
    buf: &'a [u8],
    num_symbols: u32,
    positions: Vec<usize>,
    current: usize,
}

impl<'a> SymbolTable<'a> {
    #[verifier::type_invariant]
    spec fn index_is_sound(self) -> bool {
        &&& are_all_boundaries(self.buf@, self.positions@)
        &&& self.current < self.positions@.len()
    }

    /// The bytes of the entries.
    pub closed spec fn bytes(self) -> Seq<u8> {
        self.buf@
    }

    /// The number of symbols that the block states.
    pub closed spec fn count(self) -> u32 {
        self.num_symbols
    }

    /// The position at which the next step looks for an entry.
    pub closed spec fn cursor(self) -> usize {
        self.positions@[self.current as int]
    }

    /// Reads the symbol block at `pos` of the index file `buf`, verifies
    /// its checksum and finds the boundaries of its entries. The cursor
    /// stands at the first entry.
    pub fn new(buf: &'a [u8], pos: usize) -> (r: Result<SymbolTable<'a>, TSDBError>)
        ensures
            match symbol_block_spec(buf@, pos as int) {
                Ok((entries, count)) => r matches Ok(table) && table.bytes() == entries
                    && table.count() == count && table.cursor() == 0,
                Err(e) => r matches Err(got) && got == e,
            },
    {
        let len = match read_u32(buf, pos) {
            Ok(v) => v as usize,
            Err(e) => { return Err(e); },
        };
        assert(pos + SYMBOLS_LEN_SIZE <= buf.len());
        let start = pos + SYMBOLS_LEN_SIZE;
        let room = buf.len() - start;
        if room < CHECKSUM_SIZE || len > room - CHECKSUM_SIZE || len < NUM_SYMBOLS_SIZE {
            return Err(TSDBError::OutOfRange);
        }
        let end = start + len;
        let region = match slice_bytes(buf, len, start) {
            Ok(s) => s,
            Err(e) => { return Err(e); },
        };
        let stored = match read_u32(buf, end) {
            Ok(v) => v,
            Err(e) => { return Err(e); },
        };
        if checksum(region) != stored {
            return Err(TSDBError::ChecksumMismatch);
        }
        let num_symbols = match read_u32(buf, end - NUM_SYMBOLS_SIZE) {
            Ok(v) => v,
            Err(e) => { return Err(e); },
        };
        let entries = match slice_bytes(buf, len - NUM_SYMBOLS_SIZE, start) {
            Ok(s) => s,
            Err(e) => { return Err(e); },
        };
        let positions = index_entries(entries);
        Ok(SymbolTable { buf: entries, num_symbols, positions, current: 0 })
    }

    /// The number of symbols that the block states.
    pub fn num_symbols(&self) -> (n: u32)
        ensures
            n == self.count(),
    {
        self.num_symbols
    }

    /// The position at which the next step looks for an entry.
    pub fn position(&self) -> (p: usize)
        ensures
            p == self.cursor(),
    {
        proof {
            use_type_invariant(self);
        }
        self.positions[self.current]
    }

    /// Reads the string of the entry that begins at `pos`.
    pub fn read_symbol(&self, pos: usize) -> (r: Result<String, TSDBError>)
        ensures
            is_symbol(r, symbol_at(self.bytes(), pos as int)),
    {
        read_symbol_at(self.buf, pos)
    }

    /// One step through the entries. Where a whole entry stands at the
    /// cursor, the cursor moves past it, and the step returns its string
    /// if its bytes are UTF-8 and `None` if they are not. Where no whole
    /// entry stands, it returns `None` and the cursor stays.
    pub fn next(&mut self) -> (r: Option<String>)
        ensures
            final(self).bytes() == old(self).bytes(),
            final(self).count() == old(self).count(),
            match entry_end(old(self).bytes(), old(self).cursor() as int) {
                Some(end) => final(self).cursor() == end && match symbol_at(
                    old(self).bytes(),
                    old(self).cursor() as int,
                ) {
                    Ok(chars) => r matches Some(s) && s@ == chars,
                    Err(_) => r is None,
                },
                None => r is None && final(self).cursor() == old(self).cursor(),
            },
    {
        proof {
            use_type_invariant(&*self);
        }
        if self.current >= self.positions.len() - 1 {
            return None;
        }
        assert(is_entry(self.buf@, self.positions@, self.current as int));
        let at = self.positions[self.current];
        self.current = self.current + 1;
        match read_symbol_at(self.buf, at) {
            Ok(s) => Some(s),
            Err(_) => None,
        }
    }

    /// The string of the symbol with the ordinal `n`, counted from 1:
    /// `lookup_spec` of the entries, the count and `n`. The table stays as
    /// it is, so that the same ordinal gives the same string every time.
    pub fn lookup(&self, n: usize) -> (r: Result<String, TSDBError>)
        ensures
            is_symbol(r, lookup_spec(self.bytes(), self.count(), n as int)),
    {
        proof {
            use_type_invariant(self);
        }
        if n == 0 || n > self.num_symbols as usize {
            return Err(TSDBError::SymbolTableLookup);
        }
        if n >= self.positions.len() {
            proof {
                let last = (self.positions@.len() - 1) as nat;
                lemma_boundaries_are_starts(self.buf@, self.positions@, last);
                assert(entry_start(self.buf@, last + 1) is None);
                lemma_no_start_after_end(self.buf@, last + 1, n as nat);
            }
            return Err(TSDBError::SymbolTableLookup);
        }
        proof {
            lemma_boundaries_are_starts(self.buf@, self.positions@, n as nat);
            lemma_boundaries_are_starts(self.buf@, self.positions@, (n - 1) as nat);
        }
        read_symbol_at(self.buf, self.positions[n - 1])
    }

    /// Steps through the entries from the cursor and returns their
    /// strings in order, up to the first step that yields none.
    pub fn symbols(&mut self) -> (r: Vec<String>)
        ensures
            final(self).bytes() == old(self).bytes(),
            final(self).count() == old(self).count(),
            r@.map_values(|s: String| s@) == symbols_from(
                old(self).bytes(),
                old(self).cursor() as int,
            ),
    {
        let mut found: Vec<String> = Vec::new();
        let ghost buf = self.bytes();
        let ghost start = self.cursor() as int;
        assert(found@.map_values(|s: String| s@) + symbols_from(buf, start) == symbols_from(
            buf,
            start,
        ));
        loop
            invariant_except_break
                found@.map_values(|s: String| s@) + symbols_from(buf, self.cursor() as int)
                    == symbols_from(buf, start),
            invariant
                self.bytes() == buf,
                self.count() == old(self).count(),
            ensures
                found@.map_values(|s: String| s@) == symbols_from(buf, start),
            decreases buf.len() - self.cursor(),
        {
            let ghost before = found@.map_values(|s: String| s@);
            let ghost at = self.cursor() as int;
            match self.next() {
                Some(s) => {
                    let ghost chars = s@;
                    found.push(s);
                    proof {
                        let end = entry_end(buf, at)->Some_0;
                        assert(found@.map_values(|s: String| s@) == before + seq![chars]);
                        assert((before + seq![chars]) + symbols_from(buf, end) == before + (
                        seq![chars] + symbols_from(buf, end)));
                    }
                },
                None => {
                    assert(before + Seq::<Seq<char>>::empty() == before);
                    break ;
                },
            }
        }
        found
    }
}

} // verus!

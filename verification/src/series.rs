//! The series catalog: a region of length-framed, checksummed records, each
//! a label set and an ordered list of chunk references.
//!
//! The region is a sequence of `{uvarint len}{len bytes body}{CRC32C of the
//! body}`. A length of zero is padding. A body holds the number of labels,
//! that many pairs of symbol ids, the number of chunks, and that many chunk
//! entries, whose times and references are stored as deltas.

use crate::checksum::checksum;
use crate::checksum::crc32c;
use crate::common::be_value;
use crate::common::CHECKSUM_SIZE;
use crate::common::read_u32;
use crate::common::read_varint_i64;
use crate::common::read_varint_i64_spec;
use crate::common::read_varint_u32;
use crate::common::read_varint_u32_spec;
use crate::common::read_varint_u64;
use crate::common::read_varint_u64_spec;
use crate::common::slice_bytes;
use crate::common::TSDBError;
use vstd::prelude::*;

verus! {

/// Where the sample data of one chunk of a series lies, and the time range
/// it covers.
#[derive(Debug, Clone, Copy, PartialEq, Eq, Structural)]
pub struct SeriesChunk {
    /// Time of the first sample.
    pub min_time: i64,
    /// Time of the last sample, never before `min_time`.
    pub max_time: i64,
    /// Offset of the chunk's record in the chunk log.
    pub data_ref: u64,
}

impl SeriesChunk {
    /// The first chunk of a series: `min_time` is stored as it is,
    /// `max_time` as its distance from `min_time`, the reference as it is.
    /// `None` when `max_time` would not fit in an `i64`.
    pub open spec fn first_spec(min_time: i64, max_delta: u64, data_ref: u64) -> Option<
        SeriesChunk,
    > {
        if min_time + max_delta > i64::MAX {
            None
        } else {
            Some(SeriesChunk { min_time, max_time: (min_time + max_delta) as i64, data_ref })
        }
    }

    /// A later chunk of a series: `min_time` is stored as its distance from
    /// the `max_time` before it, `max_time` as its distance from
    /// `min_time`, the reference as its signed distance from the reference
    /// before it. `None` when a time would not fit in an `i64` or the
    /// reference would not fit in a `u64`.
    pub open spec fn after_spec(
        prev: SeriesChunk,
        min_delta: u64,
        max_delta: u64,
        ref_delta: i64,
    ) -> Option<SeriesChunk> {
        let min_time = prev.max_time + min_delta;
        let max_time = min_time + max_delta;
        let data_ref = prev.data_ref + ref_delta;
        if max_time > i64::MAX || data_ref < 0 || data_ref > u64::MAX {
            None
        } else {
            Some(
                SeriesChunk {
                    min_time: min_time as i64,
                    max_time: max_time as i64,
                    data_ref: data_ref as u64,
                },
            )
        }
    }

    /// Builds the first chunk of a series from its three decoded fields.
    pub fn first(min_time: i64, max_delta: u64, data_ref: u64) -> (r: Option<SeriesChunk>)
        ensures
            r == Self::first_spec(min_time, max_delta, data_ref),
            r matches Some(c) ==> c.min_time <= c.max_time,
    {
        let max_time: i128 = min_time as i128 + max_delta as i128;
        if max_time > i64::MAX as i128 {
            return None;
        }
        Some(SeriesChunk { min_time, max_time: max_time as i64, data_ref })
    }

    /// Builds the chunk that follows `self` from its three decoded deltas.
    pub fn after(&self, min_delta: u64, max_delta: u64, ref_delta: i64) -> (r: Option<
        SeriesChunk,
    >)
        ensures
            r == Self::after_spec(*self, min_delta, max_delta, ref_delta),
            r matches Some(c) ==> self.max_time <= c.min_time <= c.max_time,
    {
        let min_time: i128 = self.max_time as i128 + min_delta as i128;
        let max_time: i128 = min_time + max_delta as i128;
        let data_ref: i128 = self.data_ref as i128 + ref_delta as i128;
        if max_time > i64::MAX as i128 || data_ref < 0 || data_ref > u64::MAX as i128 {
            return None;
        }
        Some(
            SeriesChunk {
                min_time: min_time as i64,
                max_time: max_time as i64,
                data_ref: data_ref as u64,
            },
        )
    }
}

/// A varint of a record body together with the position after it. Inside
/// a body the end of the bytes is no end of stream: a field that is not
/// there makes the record `OutOfRange`.
pub open spec fn take_u32_spec(body: Seq<u8>, pos: int) -> Result<(u32, int), TSDBError> {
    match read_varint_u32_spec(body, pos) {
        Ok((v, size)) => if size == 0 {
            Err(TSDBError::OutOfRange)
        } else {
            Ok((v, pos + size))
        },
        Err(e) => Err(e),
    }
}

/// As `take_u32_spec`, for a varint of up to 64 bits.
pub open spec fn take_u64_spec(body: Seq<u8>, pos: int) -> Result<(u64, int), TSDBError> {
    match read_varint_u64_spec(body, pos) {
        Ok((v, size)) => if size == 0 {
            Err(TSDBError::OutOfRange)
        } else {
            Ok((v, pos + size))
        },
        Err(e) => Err(e),
    }
}

/// As `take_u32_spec`, for a signed varint.
pub open spec fn take_i64_spec(body: Seq<u8>, pos: int) -> Result<(i64, int), TSDBError> {
    match read_varint_i64_spec(body, pos) {
        Ok((v, size)) => if size == 0 {
            Err(TSDBError::OutOfRange)
        } else {
            Ok((v, pos + size))
        },
        Err(e) => Err(e),
    }
}

/// Reads a varint of up to 32 bits that the body must hold at `pos`.
pub fn take_u32(body: &[u8], pos: usize) -> (r: Result<(u32, usize), TSDBError>)
    ensures
        match r {
            Ok((v, next)) => take_u32_spec(body@, pos as int) == Ok::<(u32, int), TSDBError>(
                (v, next as int),
            ) && pos < next <= body@.len(),
            Err(e) => take_u32_spec(body@, pos as int) == Err::<(u32, int), TSDBError>(e),
        },
{
    match read_varint_u32(body, pos) {
        Ok((v, size)) => if size == 0 {
            Err(TSDBError::OutOfRange)
        } else {
            assert(pos + size <= body.len());
            Ok((v, pos + size))
        },
        Err(e) => Err(e),
    }
}

/// Reads a varint of up to 64 bits that the body must hold at `pos`.
pub fn take_u64(body: &[u8], pos: usize) -> (r: Result<(u64, usize), TSDBError>)
    ensures
        match r {
            Ok((v, next)) => take_u64_spec(body@, pos as int) == Ok::<(u64, int), TSDBError>(
                (v, next as int),
            ) && pos < next <= body@.len(),
            Err(e) => take_u64_spec(body@, pos as int) == Err::<(u64, int), TSDBError>(e),
        },
{
    match read_varint_u64(body, pos) {
        Ok((v, size)) => if size == 0 {
            Err(TSDBError::OutOfRange)
        } else {
            assert(pos + size <= body.len());
            Ok((v, pos + size))
        },
        Err(e) => Err(e),
    }
}

/// Reads a signed varint that the body must hold at `pos`.
pub fn take_i64(body: &[u8], pos: usize) -> (r: Result<(i64, usize), TSDBError>)
    ensures
        match r {
            Ok((v, next)) => take_i64_spec(body@, pos as int) == Ok::<(i64, int), TSDBError>(
                (v, next as int),
            ) && pos < next <= body@.len(),
            Err(e) => take_i64_spec(body@, pos as int) == Err::<(i64, int), TSDBError>(e),
        },
{
    match read_varint_i64(body, pos) {
        Ok((v, size)) => if size == 0 {
            Err(TSDBError::OutOfRange)
        } else {
            assert(pos + size <= body.len());
            Ok((v, pos + size))
        },
        Err(e) => Err(e),
    }
}

/// The items decoded so far in front of what the rest of a list decodes to.
pub open spec fn with_prefix<T>(
    done: Seq<T>,
    rest: Result<(Seq<T>, int), TSDBError>,
) -> Result<(Seq<T>, int), TSDBError> {
    match rest {
        Ok((items, end)) => Ok((done + items, end)),
        Err(e) => Err(e),
    }
}

/// One label at `pos`: the symbol id of its name, then that of its value.
pub open spec fn label_spec(body: Seq<u8>, pos: int) -> Result<((usize, usize), int), TSDBError> {
    match take_u32_spec(body, pos) {
        Ok((name, after_name)) => match take_u32_spec(body, after_name) {
            Ok((value, after_value)) => Ok(((name as usize, value as usize), after_value)),
            Err(e) => Err(e),
        },
        Err(e) => Err(e),
    }
}

/// The `n` labels that stand at `pos`, in the order of the bytes, and the
/// position after them.
pub open spec fn labels_spec(body: Seq<u8>, pos: int, n: nat) -> Result<
    (Seq<(usize, usize)>, int),
    TSDBError,
>
    decreases n,
{
    if n == 0 {
        Ok((Seq::empty(), pos))
    } else {
        match label_spec(body, pos) {
            Ok((label, next)) => with_prefix(seq![label], labels_spec(body, next, (n - 1) as nat)),
            Err(e) => Err(e),
        }
    }
}

/// One chunk entry at `pos`. The first entry of a series (`prev` is `None`)
/// holds a signed `min_time`, an unsigned distance to `max_time` and an
/// unsigned reference. A later entry holds an unsigned distance from the
/// `max_time` before it, an unsigned distance to `max_time` and a signed
/// distance from the reference before it.
pub open spec fn chunk_spec(body: Seq<u8>, pos: int, prev: Option<SeriesChunk>) -> Result<
    (SeriesChunk, int),
    TSDBError,
> {
    match prev {
        None => match take_i64_spec(body, pos) {
            Ok((min_time, second)) => match take_u64_spec(body, second) {
                Ok((max_delta, third)) => match take_u64_spec(body, third) {
                    Ok((data_ref, end)) => match SeriesChunk::first_spec(
                        min_time,
                        max_delta,
                        data_ref,
                    ) {
                        Some(c) => Ok((c, end)),
                        None => Err(TSDBError::OutOfRange),
                    },
                    Err(e) => Err(e),
                },
                Err(e) => Err(e),
            },
            Err(e) => Err(e),
        },
        Some(before) => match take_u64_spec(body, pos) {
            Ok((min_delta, second)) => match take_u64_spec(body, second) {
                Ok((max_delta, third)) => match take_i64_spec(body, third) {
                    Ok((ref_delta, end)) => match SeriesChunk::after_spec(
                        before,
                        min_delta,
                        max_delta,
                        ref_delta,
                    ) {
                        Some(c) => Ok((c, end)),
                        None => Err(TSDBError::OutOfRange),
                    },
                    Err(e) => Err(e),
                },
                Err(e) => Err(e),
            },
            Err(e) => Err(e),
        },
    }
}

/// The `n` chunk entries that stand at `pos`, each decoded against the one
/// before it, and the position after them.
pub open spec fn chunks_spec(body: Seq<u8>, pos: int, n: nat, prev: Option<SeriesChunk>) -> Result<
    (Seq<SeriesChunk>, int),
    TSDBError,
>
    decreases n,
{
    if n == 0 {
        Ok((Seq::empty(), pos))
    } else {
        match chunk_spec(body, pos, prev) {
            Ok((c, next)) => with_prefix(
                seq![c],
                chunks_spec(body, next, (n - 1) as nat, Some(c)),
            ),
            Err(e) => Err(e),
        }
    }
}

/// With nothing done yet, the rest of a list is the whole list.
pub proof fn lemma_with_prefix_empty<T>(rest: Result<(Seq<T>, int), TSDBError>)
    ensures
        with_prefix(Seq::<T>::empty(), rest) == rest,
{
    match rest {
        Ok((items, end)) => {
            assert(Seq::<T>::empty() + items == items);
        },
        Err(e) => {},
    }
}

/// Moving one decoded item from the rest of a list to the items done.
pub proof fn lemma_with_prefix_push<T>(
    done: Seq<T>,
    item: T,
    rest: Result<(Seq<T>, int), TSDBError>,
)
    ensures
        with_prefix(done, with_prefix(seq![item], rest)) == with_prefix(done.push(item), rest),
{
    match rest {
        Ok((items, end)) => {
            assert(done + (seq![item] + items) == done.push(item) + items);
        },
        Err(e) => {},
    }
}

/// Reads one label at `pos`.
pub fn read_label(body: &[u8], pos: usize) -> (r: Result<((usize, usize), usize), TSDBError>)
    ensures
        match r {
            Ok((label, next)) => label_spec(body@, pos as int) == Ok::<
                ((usize, usize), int),
                TSDBError,
            >((label, next as int)) && pos < next <= body@.len(),
            Err(e) => label_spec(body@, pos as int) == Err::<((usize, usize), int), TSDBError>(e),
        },
{
    let (name, after_name) = match take_u32(body, pos) {
        Ok(found) => found,
        Err(e) => { return Err(e); },
    };
    let (value, after_value) = match take_u32(body, after_name) {
        Ok(found) => found,
        Err(e) => { return Err(e); },
    };
    Ok(((name as usize, value as usize), after_value))
}

/// Reads the `n` labels that stand at `pos`.
pub fn read_labels(body: &[u8], pos: usize, n: u64) -> (r: Result<
    (Vec<(usize, usize)>, usize),
    TSDBError,
>)
    ensures
        match r {
            Ok((labels, end)) => labels_spec(body@, pos as int, n as nat) == Ok::<
                (Seq<(usize, usize)>, int),
                TSDBError,
            >((labels@, end as int)) && pos <= end && (end <= body@.len() || end == pos),
            Err(e) => labels_spec(body@, pos as int, n as nat) == Err::<
                (Seq<(usize, usize)>, int),
                TSDBError,
            >(e),
        },
{
    let mut labels: Vec<(usize, usize)> = Vec::new();
    let mut at: usize = pos;
    let mut i: u64 = 0;
    proof {
        lemma_with_prefix_empty(labels_spec(body@, pos as int, n as nat));
    }
    while i < n
        invariant
            i <= n,
            pos <= at,
            at <= body@.len() || at == pos,
            labels_spec(body@, pos as int, n as nat) == with_prefix(
                labels@,
                labels_spec(body@, at as int, (n - i) as nat),
            ),
        decreases n - i,
    {
        match read_label(body, at) {
            Ok((label, next)) => {
                proof {
                    lemma_with_prefix_push(
                        labels@,
                        label,
                        labels_spec(body@, next as int, (n - i - 1) as nat),
                    );
                }
                labels.push(label);
                at = next;
            },
            Err(e) => {
                return Err(e);
            },
        }
        i += 1;
    }
    assert(labels@ + Seq::<(usize, usize)>::empty() == labels@);
    Ok((labels, at))
}

/// Reads one chunk entry at `pos`, decoded against the entry before it.
pub fn read_chunk(body: &[u8], pos: usize, prev: Option<SeriesChunk>) -> (r: Result<
    (SeriesChunk, usize),
    TSDBError,
>)
    ensures
        match r {
            Ok((c, next)) => chunk_spec(body@, pos as int, prev) == Ok::<
                (SeriesChunk, int),
                TSDBError,
            >((c, next as int)) && pos < next <= body@.len() && c.min_time <= c.max_time,
            Err(e) => chunk_spec(body@, pos as int, prev) == Err::<(SeriesChunk, int), TSDBError>(
                e,
            ),
        },
{
    match prev {
        None => {
            let (min_time, second) = match take_i64(body, pos) {
                Ok(found) => found,
                Err(e) => { return Err(e); },
            };
            let (max_delta, third) = match take_u64(body, second) {
                Ok(found) => found,
                Err(e) => { return Err(e); },
            };
            let (data_ref, end) = match take_u64(body, third) {
                Ok(found) => found,
                Err(e) => { return Err(e); },
            };
            match SeriesChunk::first(min_time, max_delta, data_ref) {
                Some(c) => Ok((c, end)),
                None => Err(TSDBError::OutOfRange),
            }
        },
        Some(before) => {
            let (min_delta, second) = match take_u64(body, pos) {
                Ok(found) => found,
                Err(e) => { return Err(e); },
            };
            let (max_delta, third) = match take_u64(body, second) {
                Ok(found) => found,
                Err(e) => { return Err(e); },
            };
            let (ref_delta, end) = match take_i64(body, third) {
                Ok(found) => found,
                Err(e) => { return Err(e); },
            };
            match before.after(min_delta, max_delta, ref_delta) {
                Some(c) => Ok((c, end)),
                None => Err(TSDBError::OutOfRange),
            }
        },
    }
}

/// Reads the `n` chunk entries that stand at `pos`.
pub fn read_chunks(body: &[u8], pos: usize, n: u64) -> (r: Result<
    (Vec<SeriesChunk>, usize),
    TSDBError,
>)
    ensures
        match r {
            Ok((chunks, end)) => chunks_spec(body@, pos as int, n as nat, None) == Ok::<
                (Seq<SeriesChunk>, int),
                TSDBError,
            >((chunks@, end as int)) && pos <= end && (end <= body@.len() || end == pos),
            Err(e) => chunks_spec(body@, pos as int, n as nat, None) == Err::<
                (Seq<SeriesChunk>, int),
                TSDBError,
            >(e),
        },
{
    let mut chunks: Vec<SeriesChunk> = Vec::new();
    let mut prev: Option<SeriesChunk> = None;
    let mut at: usize = pos;
    let mut i: u64 = 0;
    proof {
        lemma_with_prefix_empty(chunks_spec(body@, pos as int, n as nat, None));
    }
    while i < n
        invariant
            i <= n,
            pos <= at,
            at <= body@.len() || at == pos,
            chunks_spec(body@, pos as int, n as nat, None) == with_prefix(
                chunks@,
                chunks_spec(body@, at as int, (n - i) as nat, prev),
            ),
        decreases n - i,
    {
        match read_chunk(body, at, prev) {
            Ok((c, next)) => {
                proof {
                    lemma_with_prefix_push(
                        chunks@,
                        c,
                        chunks_spec(body@, next as int, (n - i - 1) as nat, Some(c)),
                    );
                }
                chunks.push(c);
                prev = Some(c);
                at = next;
            },
            Err(e) => {
                return Err(e);
            },
        }
        i += 1;
    }
    assert(chunks@ + Seq::<SeriesChunk>::empty() == chunks@);
    Ok((chunks, at))
}

/// One series: its labels as pairs of symbol ids, in the order of the
/// record, and the references to its chunks.
///
/// The ids are not resolved here; the symbol table turns them into strings.
/// A name may occur twice: the format does not forbid it.
#[derive(Debug, Clone, PartialEq, Eq)]
pub struct SeriesItem {
    /// Pairs of the symbol id of a label's name and that of its value.
    pub labels: Vec<(usize, usize)>,
    /// Where the chunks of the series lie, oldest first.
    pub chunks: Vec<SeriesChunk>,
}

/// A series as a mathematical value.
pub struct SeriesItemView {
    /// The labels, in the order of the record.
    pub labels: Seq<(usize, usize)>,
    /// The chunk references, in the order of the record.
    pub chunks: Seq<SeriesChunk>,
}

impl View for SeriesItem {
    type V = SeriesItemView;

    open spec fn view(&self) -> SeriesItemView {
        SeriesItemView { labels: self.labels@, chunks: self.chunks@ }
    }
}

/// What the body of a record decodes to: the number of labels, the labels,
/// the number of chunks, the chunks. A field that is cut short, a varint
/// that does not decode, a time or a reference that leaves its type: each
/// makes the whole body an error.
pub open spec fn series_item_spec(body: Seq<u8>) -> Result<SeriesItemView, TSDBError> {
    match take_u64_spec(body, 0) {
        Ok((num_labels, at_labels)) => match labels_spec(body, at_labels, num_labels as nat) {
            Ok((labels, at_count)) => match take_u64_spec(body, at_count) {
                Ok((num_chunks, at_chunks)) => match chunks_spec(body, at_chunks, num_chunks as nat, None) {
                    Ok((chunks, _)) => Ok(SeriesItemView { labels, chunks }),
                    Err(e) => Err(e),
                },
                Err(e) => Err(e),
            },
            Err(e) => Err(e),
        },
        Err(e) => Err(e),
    }
}

impl SeriesItem {
    /// Decodes the body of a series record.
    pub fn try_from(buf: &[u8]) -> (r: Result<SeriesItem, TSDBError>)
        ensures
            match r {
                Ok(item) => series_item_spec(buf@) == Ok::<SeriesItemView, TSDBError>(item@),
                Err(e) => series_item_spec(buf@) == Err::<SeriesItemView, TSDBError>(e),
            },
    {
        let (num_labels, at_labels) = match take_u64(buf, 0) {
            Ok(found) => found,
            Err(e) => { return Err(e); },
        };
        let (labels, at_count) = match read_labels(buf, at_labels, num_labels) {
            Ok(found) => found,
            Err(e) => { return Err(e); },
        };
        let (num_chunks, at_chunks) = match take_u64(buf, at_count) {
            Ok(found) => found,
            Err(e) => { return Err(e); },
        };
        let (chunks, _) = match read_chunks(buf, at_chunks, num_chunks) {
            Ok(found) => found,
            Err(e) => { return Err(e); },
        };
        Ok(SeriesItem { labels, chunks })
    }
}

/// One step of the scan over a series region: the next series from `pos`
/// on and the position after its record, or `None` where the sequence ends.
///
/// The sequence ends at the end of the region, at a length varint that does
/// not decode, at a record that the end of the region cuts short, at a
/// checksum that does not match and at a body that does not decode.
/// Records of length zero are padding and are passed over.
pub open spec fn series_step(buf: Seq<u8>, pos: int) -> Option<(SeriesItemView, int)>
    decreases buf.len() - pos,
{
    if pos < 0 || pos >= buf.len() {
        None
    } else {
        match read_varint_u32_spec(buf, pos) {
            Ok((len, size)) => {
                let body_pos = pos + size;
                let sum_pos = body_pos + len;
                if size == 0 || body_pos > buf.len() {
                    None
                } else if len == 0 {
                    series_step(buf, body_pos)
                } else if sum_pos + CHECKSUM_SIZE > buf.len() {
                    None
                } else {
                    let body = buf.subrange(body_pos, sum_pos);
                    let stored = be_value(buf.subrange(sum_pos, sum_pos + CHECKSUM_SIZE)) as u32;
                    if crc32c(body) != stored {
                        None
                    } else {
                        match series_item_spec(body) {
                            Ok(item) => Some((item, sum_pos + CHECKSUM_SIZE)),
                            Err(_) => None,
                        }
                    }
                }
            },
            Err(_) => None,
        }
    }
}

/// A step that yields a series moves forward and stays inside the region.
pub proof fn lemma_series_step_advances(buf: Seq<u8>, pos: int)
    requires
        series_step(buf, pos) is Some,
    ensures
        pos < series_step(buf, pos)->Some_0.1 <= buf.len(),
    decreases buf.len() - pos,
{
    let (len, size) = read_varint_u32_spec(buf, pos)->Ok_0;
    if len == 0 {
        lemma_series_step_advances(buf, pos + size);
    }
}

/// The series that a scan from `pos` yields, in the order of the region.
pub open spec fn series_items(buf: Seq<u8>, pos: int) -> Seq<SeriesItemView>
    decreases buf.len() - pos,
    via series_items_decreases
{
    match series_step(buf, pos) {
        Some((item, next)) => seq![item] + series_items(buf, next),
        None => Seq::empty(),
    }
}

#[via_fn]
proof fn series_items_decreases(buf: Seq<u8>, pos: int) {
    if series_step(buf, pos) is Some {
        lemma_series_step_advances(buf, pos);
    }
}

/// A reader over a series region: the bytes of the region and a cursor.
///
/// The sequence is finite and forward-only. Once a step has returned
/// `None` every later step does so too.
#[derive(Debug)]
pub struct Series<'a> {
    buf: &'a [u8],
    current_pos: usize,
}

impl<'a> Series<'a> {
    /// The bytes of the region.
    pub closed spec fn bytes(self) -> Seq<u8> {
        self.buf@
    }

    /// The offset in the region at which the next step begins.
    pub closed spec fn cursor(self) -> usize {
        self.current_pos
    }

    /// A reader at the start of the region `buf`.
    pub fn new(buf: &'a [u8]) -> (series: Series<'a>)
        ensures
            series.bytes() == buf@,
            series.cursor() == 0,
    {
        Series { buf, current_pos: 0 }
    }

    /// The offset in the region at which the next step begins.
    pub fn position(&self) -> (p: usize)
        ensures
            p == self.cursor(),
    {
        self.current_pos
    }

    /// One step of the scan: the next series and a cursor moved past its
    /// record, or `None` with the cursor left where it was, as `series_step`
    /// says.
    pub fn next(&mut self) -> (r: Option<SeriesItem>)
        ensures
            final(self).bytes() == old(self).bytes(),
            match series_step(old(self).bytes(), old(self).cursor() as int) {
                Some((item, next)) => r matches Some(found) && found@ == item
                    && final(self).cursor() == next,
                None => r is None && final(self).cursor() == old(self).cursor(),
            },
    {
        let buf = self.buf;
        let mut pos: usize = self.current_pos;
        loop
            invariant
                buf == self.buf,
                self.current_pos == old(self).current_pos,
                self.buf == old(self).buf,
                series_step(buf@, pos as int) == series_step(buf@, self.current_pos as int),
            decreases buf@.len() - pos,
        {
            if pos >= buf.len() {
                return None;
            }
            let (len, size) = match read_varint_u32(buf, pos) {
                Ok(found) => found,
                Err(_) => { return None; },
            };
            if size == 0 {
                return None;
            }
            let body_pos = pos + size;
            if len == 0 {
                pos = body_pos;
                continue ;
            }
            let body = match slice_bytes(buf, len as usize, body_pos) {
                Ok(s) => s,
                Err(_) => { return None; },
            };
            let sum_pos = body_pos + len as usize;
            let stored = match read_u32(buf, sum_pos) {
                Ok(v) => v,
                Err(_) => { return None; },
            };
            if checksum(body) != stored {
                return None;
            }
            match SeriesItem::try_from(body) {
                Ok(item) => {
                    self.current_pos = sum_pos + CHECKSUM_SIZE;
                    return Some(item);
                },
                Err(_) => {
                    return None;
                },
            }
        }
    }

    /// Runs the scan from the cursor to its end and returns the series it
    /// passed, in the order of the region.
    pub fn items(&mut self) -> (r: Vec<SeriesItem>)
        ensures
            final(self).bytes() == old(self).bytes(),
            r@.map_values(|s: SeriesItem| s@) == series_items(
                old(self).bytes(),
                old(self).cursor() as int,
            ),
            series_step(final(self).bytes(), final(self).cursor() as int) is None,
    {
        let mut found: Vec<SeriesItem> = Vec::new();
        let ghost buf = self.bytes();
        let ghost start = self.cursor() as int;
        assert(found@.map_values(|s: SeriesItem| s@) + series_items(buf, start) == series_items(
            buf,
            start,
        ));
        loop
            invariant
                self.bytes() == buf,
                found@.map_values(|s: SeriesItem| s@) + series_items(buf, self.cursor() as int)
                    == series_items(buf, start),
            ensures
                found@.map_values(|s: SeriesItem| s@) == series_items(buf, start),
                series_step(buf, self.cursor() as int) is None,
            decreases buf.len() - self.cursor(),
        {
            let ghost before = found@.map_values(|s: SeriesItem| s@);
            let ghost at = self.cursor() as int;
            match self.next() {
                Some(item) => {
                    proof {
                        lemma_series_step_advances(buf, at);
                    }
                    let ghost view = item@;
                    found.push(item);
                    proof {
                        let next = series_step(buf, at)->Some_0.1;
                        assert(found@.map_values(|s: SeriesItem| s@) == before + seq![view]);
                        assert((before + seq![view]) + series_items(buf, next) == before + (
                        seq![view] + series_items(buf, next)));
                    }
                },
                None => {
                    assert(before + Seq::<SeriesItemView>::empty() == before);
                    break ;
                },
            }
        }
        found
    }
}

/// A record that fits in the region and is no padding is yielded exactly
/// when its stored checksum equals the CRC32C of its body and the body
/// decodes; the series yielded is then what the body decodes to.
pub proof fn lemma_series_accepts_exactly_matching_checksum(
    buf: Seq<u8>,
    pos: int,
    len: u32,
    size: usize,
)
    requires
        0 <= pos < buf.len(),
        read_varint_u32_spec(buf, pos) == Ok::<(u32, usize), TSDBError>((len, size)),
        size > 0,
        len > 0,
        pos + size + len + CHECKSUM_SIZE <= buf.len(),
    ensures
        ({
            let body = buf.subrange(pos + size, pos + size + len);
            let stored = be_value(
                buf.subrange(pos + size + len, pos + size + len + CHECKSUM_SIZE),
            ) as u32;
            &&& series_step(buf, pos) is Some <==> crc32c(body) == stored && series_item_spec(
                body,
            ) is Ok
            &&& series_step(buf, pos) is Some ==> series_step(buf, pos)->Some_0.0
                == series_item_spec(body)->Ok_0
        }),
{
}

/// A record that the end of the region cuts short is not yielded: the
/// scan ends there and reads nothing past the end.
pub proof fn lemma_truncated_record_ends_scan(buf: Seq<u8>, pos: int, len: u32, size: usize)
    requires
        read_varint_u32_spec(buf, pos) == Ok::<(u32, usize), TSDBError>((len, size)),
        len > 0,
        pos + size + len + CHECKSUM_SIZE > buf.len(),
    ensures
        series_step(buf, pos) is None,
        series_items(buf, pos) == Seq::<SeriesItemView>::empty(),
{
}

/// Where a step yields nothing the scan yields nothing: a record that is
/// cut short or corrupt ends the sequence, and is not yielded.
pub proof fn lemma_series_end_is_final(buf: Seq<u8>, pos: int)
    requires
        series_step(buf, pos) is None,
    ensures
        series_items(buf, pos) == Seq::<SeriesItemView>::empty(),
{
}

/// Every chunk of a decoded series ends no earlier than it begins, and
/// begins no earlier than the chunk before it ends.
pub proof fn lemma_chunk_times_ordered(
    body: Seq<u8>,
    pos: int,
    n: nat,
    prev: Option<SeriesChunk>,
    i: int,
)
    requires
        chunks_spec(body, pos, n, prev) is Ok,
        0 <= i < n,
    ensures
        chunks_spec(body, pos, n, prev)->Ok_0.0.len() == n,
        ({
            let chunks = chunks_spec(body, pos, n, prev)->Ok_0.0;
            &&& chunks[i].min_time <= chunks[i].max_time
            &&& i > 0 ==> chunks[i - 1].max_time <= chunks[i].min_time
            &&& (i == 0 && prev is Some) ==> prev->Some_0.max_time <= chunks[0].min_time
        }),
    decreases n,
{
    let (c, next) = chunk_spec(body, pos, prev)->Ok_0;
    let rest = chunks_spec(body, next, (n - 1) as nat, Some(c))->Ok_0.0;
    lemma_chunks_len(body, pos, n, prev);
    lemma_chunks_len(body, next, (n - 1) as nat, Some(c));
    assert(chunks_spec(body, pos, n, prev)->Ok_0.0 == seq![c] + rest);
    if i > 0 {
        lemma_chunk_times_ordered(body, next, (n - 1) as nat, Some(c), i - 1);
    }
}

/// A body that decodes holds as many labels and as many chunks as the two
/// counts in it say.
pub proof fn lemma_series_item_counts(body: Seq<u8>)
    requires
        series_item_spec(body) is Ok,
    ensures
        ({
            let item = series_item_spec(body)->Ok_0;
            let (num_labels, at_labels) = take_u64_spec(body, 0)->Ok_0;
            let (_, at_count) = labels_spec(body, at_labels, num_labels as nat)->Ok_0;
            let (num_chunks, _) = take_u64_spec(body, at_count)->Ok_0;
            &&& item.labels.len() == num_labels
            &&& item.chunks.len() == num_chunks
        }),
{
    let (num_labels, at_labels) = take_u64_spec(body, 0)->Ok_0;
    let (_, at_count) = labels_spec(body, at_labels, num_labels as nat)->Ok_0;
    let (num_chunks, at_chunks) = take_u64_spec(body, at_count)->Ok_0;
    lemma_labels_len(body, at_labels, num_labels as nat);
    lemma_chunks_len(body, at_chunks, num_chunks as nat, None);
}

/// A chunk list that decodes has as many entries as its count says.
pub proof fn lemma_chunks_len(body: Seq<u8>, pos: int, n: nat, prev: Option<SeriesChunk>)
    requires
        chunks_spec(body, pos, n, prev) is Ok,
    ensures
        chunks_spec(body, pos, n, prev)->Ok_0.0.len() == n,
        chunks_spec(body, pos, n, prev)->Ok_0.1 >= pos,
    decreases n,
{
    if n > 0 {
        let (c, next) = chunk_spec(body, pos, prev)->Ok_0;
        lemma_chunks_len(body, next, (n - 1) as nat, Some(c));
    }
}

/// A label list that decodes has as many entries as its count says.
pub proof fn lemma_labels_len(body: Seq<u8>, pos: int, n: nat)
    requires
        labels_spec(body, pos, n) is Ok,
    ensures
        labels_spec(body, pos, n)->Ok_0.0.len() == n,
        labels_spec(body, pos, n)->Ok_0.1 >= pos,
    decreases n,
{
    if n > 0 {
        let (label, next) = label_spec(body, pos)->Ok_0;
        lemma_labels_len(body, next, (n - 1) as nat);
    }
}

} // verus!

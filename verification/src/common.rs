//! Primitive codec: bounds-checked views, fixed-width big-endian integers,
//! unsigned varints and zigzag-encoded signed varints.

use vstd::prelude::*;
use vstd::slice::slice_subrange;
use vstd::slice::slice_to_vec;

verus! {

/// What can go wrong while decoding.
#[derive(Debug, Clone, Copy, PartialEq, Eq, Structural)]
pub enum TSDBError {
    /// A read or a view reaches past the end of the buffer.
    OutOfRange,
    /// A varint does not end within the width of its type, or is otherwise
    /// not a valid encoding.
    MalformedVarint,
    /// A stored checksum differs from the one computed over the bytes it covers.
    ChecksumMismatch,
    /// The bytes of a symbol are not valid UTF-8.
    InvalidUtf8,
    /// A symbol ordinal lies outside the population of the symbol table.
    SymbolTableLookup,
}

/// Size of a stored checksum.
pub const CHECKSUM_SIZE: usize = 4;

/// Offset of the magic number that both kinds of file begin with.
pub const MAGIC_POS: usize = 0;

/// Size of the magic number.
pub const MAGIC_SIZE: usize = 4;

/// Offset of the format version.
pub const VERSION_POS: usize = 4;

/// Size of the format version.
pub const VERSION_SIZE: usize = 1;

/// Whether `size` bytes from `pos` on lie within a buffer of `len` bytes.
pub open spec fn in_range(len: nat, size: int, pos: int) -> bool {
    0 <= pos && 0 <= size && pos + size <= len
}

/// A view of `size` bytes of `buf` starting at `pos`.
///
/// Fails with `OutOfRange` exactly when the view would reach past the end.
pub fn slice_bytes(buf: &[u8], size: usize, pos: usize) -> (r: Result<&[u8], TSDBError>)
    ensures
        match r {
            Ok(s) => in_range(buf@.len(), size as int, pos as int) && s@ == buf@.subrange(
                pos as int,
                pos + size,
            ),
            Err(e) => e == TSDBError::OutOfRange && !in_range(
                buf@.len(),
                size as int,
                pos as int,
            ),
        },
{
    if pos > buf.len() || size > buf.len() - pos {
        return Err(TSDBError::OutOfRange);
    }
    Ok(slice_subrange(buf, pos, pos + size))
}

/// A copy of `size` bytes of `buf` starting at `pos`.
///
/// Fails with `OutOfRange` exactly when the range would reach past the end.
pub fn copy_bytes(buf: &[u8], size: usize, pos: usize) -> (r: Result<Vec<u8>, TSDBError>)
    ensures
        match r {
            Ok(v) => in_range(buf@.len(), size as int, pos as int) && v@ == buf@.subrange(
                pos as int,
                pos + size,
            ),
            Err(e) => e == TSDBError::OutOfRange && !in_range(
                buf@.len(),
                size as int,
                pos as int,
            ),
        },
{
    match slice_bytes(buf, size, pos) {
        Ok(s) => Ok(slice_to_vec(s)),
        Err(e) => Err(e),
    }
}

/// The number that `bytes` spell in big-endian order.
pub open spec fn be_value(bytes: Seq<u8>) -> nat
    decreases bytes.len(),
{
    if bytes.len() == 0 {
        0
    } else {
        be_value(bytes.drop_last()) * 256 + bytes.last() as nat
    }
}

/// 256 to the power `n`: the number of values that `n` bytes can spell.
pub open spec fn pow256(n: nat) -> nat
    decreases n,
{
    if n == 0 {
        1
    } else {
        256 * pow256((n - 1) as nat)
    }
}

/// A big-endian number of `n` bytes is below `256^n`.
pub proof fn lemma_be_value_bound(bytes: Seq<u8>)
    ensures
        be_value(bytes) < pow256(bytes.len()),
    decreases bytes.len(),
{
    if bytes.len() > 0 {
        lemma_be_value_bound(bytes.drop_last());
    }
}

/// `pow256` at the widths that the formats use.
pub proof fn lemma_pow256_widths()
    ensures
        pow256(0) == 1,
        pow256(1) == 0x100,
        pow256(2) == 0x1_0000,
        pow256(3) == 0x100_0000,
        pow256(4) == 0x1_0000_0000,
        pow256(5) == 0x100_0000_0000,
        pow256(6) == 0x1_0000_0000_0000,
        pow256(7) == 0x100_0000_0000_0000,
        pow256(8) == 0x1_0000_0000_0000_0000,
{
    reveal_with_fuel(pow256, 9);
}

/// `pow256` grows with its argument.
pub proof fn lemma_pow256_monotonic(a: nat, b: nat)
    requires
        a <= b,
    ensures
        pow256(a) <= pow256(b),
        pow256(a) >= 1,
    decreases b,
{
    if a < b {
        lemma_pow256_monotonic(a, (b - 1) as nat);
    } else if a > 0 {
        lemma_pow256_monotonic((a - 1) as nat, (a - 1) as nat);
    }
}

/// What a fixed-width big-endian read of `width` bytes at `pos` yields.
pub open spec fn read_be_spec(buf: Seq<u8>, pos: int, width: int) -> Result<nat, TSDBError> {
    if in_range(buf.len(), width, pos) {
        Ok(be_value(buf.subrange(pos, pos + width)))
    } else {
        Err(TSDBError::OutOfRange)
    }
}

/// Reads an unsigned big-endian integer of `width` bytes at `pos`.
///
/// One routine serves every width up to eight bytes. It fails with
/// `OutOfRange` exactly when `pos + width` exceeds the length of `buf`.
pub fn read_be(buf: &[u8], pos: usize, width: usize) -> (r: Result<u64, TSDBError>)
    requires
        width <= 8,
    ensures
        match r {
            Ok(v) => read_be_spec(buf@, pos as int, width as int) == Ok::<nat, TSDBError>(
                v as nat,
            ),
            Err(e) => read_be_spec(buf@, pos as int, width as int) == Err::<nat, TSDBError>(e),
        },
{
    if pos > buf.len() || width > buf.len() - pos {
        return Err(TSDBError::OutOfRange);
    }
    let ghost field = buf@.subrange(pos as int, pos + width);
    let mut acc: u64 = 0;
    let mut i: usize = 0;
    while i < width
        invariant
            i <= width <= 8,
            pos + width <= buf.len(),
            field == buf@.subrange(pos as int, pos + width),
            acc as nat == be_value(field.take(i as int)),
        decreases width - i,
    {
        let b: u8 = buf[pos + i];
        proof {
            let next = field.take(i + 1);
            assert(next.drop_last() == field.take(i as int));
            assert(next.last() == b);
            lemma_be_value_bound(next);
            lemma_pow256_monotonic(next.len(), 8);
            lemma_pow256_widths();
        }
        acc = acc * 256 + b as u64;
        i += 1;
    }
    assert(field.take(width as int) == field);
    Ok(acc)
}

/// What reading a big-endian `u32` at `pos` yields.
pub open spec fn read_u32_spec(buf: Seq<u8>, pos: int) -> Result<u32, TSDBError> {
    match read_be_spec(buf, pos, 4) {
        Ok(n) => Ok(n as u32),
        Err(e) => Err(e),
    }
}

/// What reading a big-endian `u64` at `pos` yields.
pub open spec fn read_u64_spec(buf: Seq<u8>, pos: int) -> Result<u64, TSDBError> {
    match read_be_spec(buf, pos, 8) {
        Ok(n) => Ok(n as u64),
        Err(e) => Err(e),
    }
}

/// Reads a big-endian `u32` at `pos`; `OutOfRange` when four bytes are not there.
pub fn read_u32(buf: &[u8], pos: usize) -> (r: Result<u32, TSDBError>)
    ensures
        r == read_u32_spec(buf@, pos as int),
        r matches Ok(v) ==> v == be_value(buf@.subrange(pos as int, pos + 4)),
{
    match read_be(buf, pos, 4) {
        Ok(v) => {
            proof {
                lemma_be_value_bound(buf@.subrange(pos as int, pos + 4));
                lemma_pow256_widths();
            }
            Ok(v as u32)
        },
        Err(e) => Err(e),
    }
}

/// Reads a big-endian `u64` at `pos`; `OutOfRange` when eight bytes are not there.
pub fn read_u64(buf: &[u8], pos: usize) -> (r: Result<u64, TSDBError>)
    ensures
        r == read_u64_spec(buf@, pos as int),
        r matches Ok(v) ==> v == be_value(buf@.subrange(pos as int, pos + 8)),
{
    read_be(buf, pos, 8)
}

/// Reads the stored checksum of a record: a big-endian `u32` at `pos`.
pub fn get_checksum(buf: &[u8], pos: usize) -> (r: Result<u32, TSDBError>)
    ensures
        r == read_u32_spec(buf@, pos as int),
        r matches Ok(v) ==> v == be_value(buf@.subrange(pos as int, pos + 4)),
{
    read_u32(buf, pos)
}

/// The magic number and the format version that a file begins with;
/// `OutOfRange` where the file is too short to hold them.
pub open spec fn header_spec(buf: Seq<u8>) -> Result<(u32, u8), TSDBError> {
    if buf.len() < VERSION_POS + VERSION_SIZE {
        Err(TSDBError::OutOfRange)
    } else {
        Ok(
            (
                be_value(buf.subrange(MAGIC_POS as int, MAGIC_POS + MAGIC_SIZE)) as u32,
                buf[VERSION_POS as int],
            ),
        )
    }
}

/// Reads the magic number and the format version at the start of a file.
/// Neither is judged: the caller decides what it accepts.
pub fn read_header(buf: &[u8]) -> (r: Result<(u32, u8), TSDBError>)
    ensures
        r == header_spec(buf@),
{
    if buf.len() < VERSION_POS + VERSION_SIZE {
        return Err(TSDBError::OutOfRange);
    }
    let magic = match read_u32(buf, MAGIC_POS) {
        Ok(m) => m,
        Err(e) => { return Err(e); },
    };
    Ok((magic, buf[VERSION_POS]))
}

/// The value and the width in bytes of the unsigned varint that `bytes`
/// begins with, as `unsigned_varint::decode::u32` reads it; `None` where it
/// reports an error.
pub uninterp spec fn uvarint32(bytes: Seq<u8>) -> Option<(u32, usize)>;

/// The value and the width in bytes of the unsigned varint that `bytes`
/// begins with, as `unsigned_varint::decode::u64` reads it; `None` where it
/// reports an error.
pub uninterp spec fn uvarint64(bytes: Seq<u8>) -> Option<(u64, usize)>;

/// The error type of `unsigned_varint::decode`, carried through unread.
#[verifier::external_type_specification]
#[verifier::external_body]
pub struct ExDecodeError(unsigned_varint::decode::Error);

/// `unsigned_varint::decode::u32` returns the decoded value and the rest of
/// its input. The rest is a proper suffix of the input, at most five bytes
/// shorter; the value and the number of bytes taken are `uvarint32` of the
/// input. On an error `uvarint32` is `None`.
pub assume_specification[ unsigned_varint::decode::u32 ](buf: &[u8]) -> (r: Result<
    (u32, &[u8]),
    unsigned_varint::decode::Error,
>)
    ensures
        match r {
            Ok((v, rest)) => {
                &&& 1 <= buf@.len() - rest@.len() <= 5
                &&& rest@ == buf@.subrange(buf@.len() - rest@.len(), buf@.len() as int)
                &&& uvarint32(buf@) == Some((v, (buf@.len() - rest@.len()) as usize))
            },
            Err(_) => uvarint32(buf@) is None,
        },
;

/// `unsigned_varint::decode::u64` returns the decoded value and the rest of
/// its input. The rest is a proper suffix of the input, at most ten bytes
/// shorter; the value and the number of bytes taken are `uvarint64` of the
/// input. On an error `uvarint64` is `None`.
pub assume_specification[ unsigned_varint::decode::u64 ](buf: &[u8]) -> (r: Result<
    (u64, &[u8]),
    unsigned_varint::decode::Error,
>)
    ensures
        match r {
            Ok((v, rest)) => {
                &&& 1 <= buf@.len() - rest@.len() <= 10
                &&& rest@ == buf@.subrange(buf@.len() - rest@.len(), buf@.len() as int)
                &&& uvarint64(buf@) == Some((v, (buf@.len() - rest@.len()) as usize))
            },
            Err(_) => uvarint64(buf@) is None,
        },
;

/// What `read_varint_u32` yields at `pos`: the sentinel `(0, 0)` at or past
/// the end of `buf`, else the varint that the bytes from `pos` on begin with.
pub open spec fn read_varint_u32_spec(buf: Seq<u8>, pos: int) -> Result<(u32, usize), TSDBError> {
    if pos >= buf.len() {
        Ok((0u32, 0usize))
    } else {
        match uvarint32(buf.subrange(pos, buf.len() as int)) {
            Some(found) => Ok(found),
            None => Err(TSDBError::MalformedVarint),
        }
    }
}

/// Reads an unsigned varint of at most 32 bits at `pos`.
///
/// Returns the value and the number of bytes it took. At or past the end of
/// `buf` it returns `(0, 0)`: no more data, which is no error. A varint that
/// the decoder rejects gives `MalformedVarint`.
pub fn read_varint_u32(buf: &[u8], pos: usize) -> (r: Result<(u32, usize), TSDBError>)
    ensures
        r == read_varint_u32_spec(buf@, pos as int),
        pos >= buf@.len() ==> r == Ok::<(u32, usize), TSDBError>((0u32, 0usize)),
        pos < buf@.len() ==> (r matches Ok((_, size)) ==> 1 <= size <= 5 && pos + size
            <= buf@.len()),
{
    if buf.len() <= pos {
        return Ok((0, 0));
    }
    let tail = slice_subrange(buf, pos, buf.len());
    match unsigned_varint::decode::u32(tail) {
        Ok((value, rest)) => Ok((value, tail.len() - rest.len())),
        Err(_) => Err(TSDBError::MalformedVarint),
    }
}

/// What `read_varint_u64` yields at `pos`: the sentinel `(0, 0)` at or past
/// the end of `buf`, else the varint that the bytes from `pos` on begin with.
pub open spec fn read_varint_u64_spec(buf: Seq<u8>, pos: int) -> Result<(u64, usize), TSDBError> {
    if pos >= buf.len() {
        Ok((0u64, 0usize))
    } else {
        match uvarint64(buf.subrange(pos, buf.len() as int)) {
            Some(found) => Ok(found),
            None => Err(TSDBError::MalformedVarint),
        }
    }
}

/// Reads an unsigned varint of at most 64 bits at `pos`.
///
/// Returns the value and the number of bytes it took. At or past the end of
/// `buf` it returns `(0, 0)`: no more data, which is no error. A varint that
/// the decoder rejects gives `MalformedVarint`.
pub fn read_varint_u64(buf: &[u8], pos: usize) -> (r: Result<(u64, usize), TSDBError>)
    ensures
        r == read_varint_u64_spec(buf@, pos as int),
        pos >= buf@.len() ==> r == Ok::<(u64, usize), TSDBError>((0u64, 0usize)),
        pos < buf@.len() ==> (r matches Ok((_, size)) ==> 1 <= size <= 10 && pos + size
            <= buf@.len()),
{
    if buf.len() <= pos {
        return Ok((0, 0));
    }
    let tail = slice_subrange(buf, pos, buf.len());
    match unsigned_varint::decode::u64(tail) {
        Ok((value, rest)) => Ok((value, tail.len() - rest.len())),
        Err(_) => Err(TSDBError::MalformedVarint),
    }
}

/// At or past the end of the buffer every varint reader yields the
/// sentinel `(0, 0)` and no error.
pub proof fn lemma_read_past_end(buf: Seq<u8>, pos: int)
    requires
        pos >= buf.len(),
    ensures
        read_varint_u32_spec(buf, pos) == Ok::<(u32, usize), TSDBError>((0u32, 0usize)),
        read_varint_u64_spec(buf, pos) == Ok::<(u64, usize), TSDBError>((0u64, 0usize)),
        read_varint_i64_spec(buf, pos) == Ok::<(i64, usize), TSDBError>((0i64, 0usize)),
{
}

/// The signed integer that the zigzag code `u` stands for: the even codes
/// count up from zero, the odd codes count down from minus one.
pub open spec fn zigzag_dec_spec(u: u64) -> int {
    if u % 2 == 0 {
        u as int / 2
    } else {
        -(u as int / 2) - 1
    }
}

/// The zigzag code of the signed integer `v`.
pub open spec fn zigzag_enc_spec(v: i64) -> int {
    if v >= 0 {
        2 * v
    } else {
        -2 * v - 1
    }
}

/// Decodes a zigzag code: `(u >> 1) ^ -(u & 1)`.
pub fn zigzag_dec(u: u64) -> (v: i64)
    ensures
        v == zigzag_dec_spec(u),
{
    let half: u64 = u >> 1;
    let low: u64 = u & 1;
    assert(half == u / 2 && low == u % 2 && half <= 0x7fff_ffff_ffff_ffff) by (bit_vector)
        requires
            half == u >> 1,
            low == u & 1,
    ;
    let magnitude: i64 = half as i64;
    let sign: i64 = -(low as i64);
    assert(sign == 0 ==> magnitude ^ sign == magnitude) by (bit_vector);
    assert(sign == -1 ==> magnitude ^ sign == -magnitude - 1) by (bit_vector)
        requires
            magnitude >= 0,
    ;
    magnitude ^ sign
}

/// Encodes a signed integer as its zigzag code.
pub fn zigzag_enc(v: i64) -> (u: u64)
    ensures
        u == zigzag_enc_spec(v),
{
    if v >= 0 {
        (v as u64) * 2
    } else {
        ((-(v + 1)) as u64) * 2 + 1
    }
}

/// Decoding undoes encoding: for every `v` the code of `v` stands for `v`.
pub proof fn lemma_zigzag_round_trip(v: i64)
    ensures
        0 <= zigzag_enc_spec(v) <= u64::MAX,
        zigzag_dec_spec(zigzag_enc_spec(v) as u64) == v,
{
}

/// Encoding undoes decoding: every code is the code of what it stands for,
/// so the two functions are inverse bijections between `u64` and `i64`.
pub proof fn lemma_zigzag_code_unique(u: u64)
    ensures
        i64::MIN <= zigzag_dec_spec(u) <= i64::MAX,
        zigzag_enc_spec(zigzag_dec_spec(u) as i64) == u,
{
}

/// What `read_varint_i64` yields at `pos`: the unsigned varint there, zigzag-decoded.
pub open spec fn read_varint_i64_spec(buf: Seq<u8>, pos: int) -> Result<(i64, usize), TSDBError> {
    match read_varint_u64_spec(buf, pos) {
        Ok((u, size)) => Ok((zigzag_dec_spec(u) as i64, size)),
        Err(e) => Err(e),
    }
}

/// Reads a signed varint at `pos`: an unsigned varint holding a zigzag code.
///
/// At or past the end of `buf` it returns `(0, 0)`, as the unsigned readers do.
pub fn read_varint_i64(buf: &[u8], pos: usize) -> (r: Result<(i64, usize), TSDBError>)
    ensures
        r == read_varint_i64_spec(buf@, pos as int),
        pos >= buf@.len() ==> r == Ok::<(i64, usize), TSDBError>((0i64, 0usize)),
        pos < buf@.len() ==> (r matches Ok((_, size)) ==> 1 <= size <= 10 && pos + size
            <= buf@.len()),
{
    match read_varint_u64(buf, pos) {
        Ok((u, size)) => Ok((zigzag_dec(u), size)),
        Err(e) => Err(e),
    }
}

} // verus!

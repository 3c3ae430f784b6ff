use vstd::prelude::*;
use crate::error::Error;

verus! {

/// Number of zero bytes that carry position `pos` to the next multiple of
/// `align`.  Always between 1 and `align`: a position already on a boundary
/// is pushed a full `align` further, so every entry and trailer is separated
/// from its successor by at least one padding byte.
pub open spec fn pad_len(pos: int, align: int) -> int {
    align - pos % align
}

/// A run of `n` zero bytes.
pub open spec fn zeros(n: int) -> Seq<u8> {
    Seq::new(n as nat, |i: int| 0u8)
}

/// Big-endian encoding of a 64-bit value, most significant byte first.
pub open spec fn u64_be_bytes(n: u64) -> Seq<u8> {
    seq![
        (n >> 56) as u8,
        (n >> 48) as u8,
        (n >> 40) as u8,
        (n >> 32) as u8,
        (n >> 24) as u8,
        (n >> 16) as u8,
        (n >> 8) as u8,
        n as u8,
    ]
}

/// Big-endian encoding of a 32-bit value.
pub open spec fn u32_be_bytes(n: u32) -> Seq<u8> {
    seq![(n >> 24) as u8, (n >> 16) as u8, (n >> 8) as u8, n as u8]
}

/// The 64-bit value whose big-endian encoding is the 8 bytes of `s`.
pub open spec fn u64_from_be(s: Seq<u8>) -> u64
    recommends
        s.len() == 8,
{
    (((s[0] as u64) << 56) | ((s[1] as u64) << 48) | ((s[2] as u64) << 40)
        | ((s[3] as u64) << 32) | ((s[4] as u64) << 24) | ((s[5] as u64) << 16)
        | ((s[6] as u64) << 8) | (s[7] as u64)) as u64
}

/// The 32-bit value whose big-endian encoding is the 4 bytes of `s`.
pub open spec fn u32_from_be(s: Seq<u8>) -> u32
    recommends
        s.len() == 4,
{
    (((s[0] as u32) << 24) | ((s[1] as u32) << 16) | ((s[2] as u32) << 8)
        | (s[3] as u32)) as u32
}

/// Decoding the big-endian bytes of a 64-bit value gives the value back.
pub proof fn lemma_u64_be_round_trip(n: u64)
    ensures
        u64_from_be(u64_be_bytes(n)) == n,
{
    assert((((((n >> 56) as u8) as u64) << 56) | ((((n >> 48) as u8) as u64) << 48)
        | ((((n >> 40) as u8) as u64) << 40) | ((((n >> 32) as u8) as u64) << 32)
        | ((((n >> 24) as u8) as u64) << 24) | ((((n >> 16) as u8) as u64) << 16)
        | ((((n >> 8) as u8) as u64) << 8) | ((n as u8) as u64)) == n) by (bit_vector);
}

/// Decoding the big-endian bytes of a 32-bit value gives the value back.
pub proof fn lemma_u32_be_round_trip(n: u32)
    ensures
        u32_from_be(u32_be_bytes(n)) == n,
{
    assert((((((n >> 24) as u8) as u32) << 24) | ((((n >> 16) as u8) as u32) << 16)
        | ((((n >> 8) as u8) as u32) << 8) | ((n as u8) as u32)) == n) by (bit_vector);
}

/// What CRC-32 yields for a byte sequence; a function of the bytes alone.
pub uninterp spec fn crc32_of(data: Seq<u8>) -> u32;

/// Relies on crc32fast::Hasher (new, update, finalize): the CRC-32 checksum
/// of the bytes handed to update, a function of those bytes alone.
#[verifier::external_body]
pub(crate) fn crc32(data: &[u8]) -> (r: u32)
    ensures
        r == crc32_of(data@),
{
    let mut hasher = crc32fast::Hasher::new();
    hasher.update(data);
    hasher.finalize()
}

/// Appends the big-endian bytes of `n` to `out`.
pub(crate) fn push_u64_be(out: &mut Vec<u8>, n: u64)
    ensures
        final(out)@ == old(out)@ + u64_be_bytes(n),
{
    out.push((n >> 56) as u8);
    out.push((n >> 48) as u8);
    out.push((n >> 40) as u8);
    out.push((n >> 32) as u8);
    out.push((n >> 24) as u8);
    out.push((n >> 16) as u8);
    out.push((n >> 8) as u8);
    out.push(n as u8);
    proof {
        assert(out@ =~= old(out)@ + u64_be_bytes(n));
    }
}

/// Appends the big-endian bytes of `n` to `out`.
pub(crate) fn push_u32_be(out: &mut Vec<u8>, n: u32)
    ensures
        final(out)@ == old(out)@ + u32_be_bytes(n),
{
    out.push((n >> 24) as u8);
    out.push((n >> 16) as u8);
    out.push((n >> 8) as u8);
    out.push(n as u8);
    proof {
        assert(out@ =~= old(out)@ + u32_be_bytes(n));
    }
}

/// Appends `n` zero bytes to `out`.
pub(crate) fn push_zeros(out: &mut Vec<u8>, n: usize)
    ensures
        final(out)@ == old(out)@ + zeros(n as int),
{
    let mut i: usize = 0;
    while i < n
        invariant
            i <= n,
            out@ == old(out)@ + zeros(i as int),
        decreases n - i,
    {
        out.push(0u8);
        i = i + 1;
        proof {
            assert(out@ =~= old(out)@ + zeros(i as int));
        }
    }
}

/// Appends a copy of the slice `data` to `out`.
pub(crate) fn push_bytes(out: &mut Vec<u8>, data: &[u8])
    ensures
        final(out)@ == old(out)@ + data@,
{
    let mut i: usize = 0;
    while i < data.len()
        invariant
            i <= data@.len(),
            out@ == old(out)@ + data@.subrange(0, i as int),
        decreases data@.len() - i,
    {
        let b = data[i];
        out.push(b);
        i = i + 1;
        proof {
            assert(out@ =~= old(out)@ + data@.subrange(0, i as int));
        }
    }
    proof {
        assert(data@.subrange(0, data@.len() as int) =~= data@);
    }
}

/// Reads the 64-bit big-endian value stored at `v[off .. off + 8]`.
pub(crate) fn read_u64_be(v: &Vec<u8>, off: usize) -> (r: u64)
    requires
        off + 8 <= v@.len(),
    ensures
        r == u64_from_be(v@.subrange(off as int, off as int + 8)),
{
    // The length call brings the vector's length bound into scope for the
    // index arithmetic below.
    let n = v.len();
    assert(off + 8 <= n);
    ((v[off] as u64) << 56) | ((v[off + 1] as u64) << 48) | ((v[off + 2] as u64) << 40)
        | ((v[off + 3] as u64) << 32) | ((v[off + 4] as u64) << 24)
        | ((v[off + 5] as u64) << 16) | ((v[off + 6] as u64) << 8) | (v[off + 7] as u64)
}

/// Reads the 32-bit big-endian value stored at `v[off .. off + 4]`.
pub(crate) fn read_u32_be(v: &Vec<u8>, off: usize) -> (r: u32)
    requires
        off + 4 <= v@.len(),
    ensures
        r == u32_from_be(v@.subrange(off as int, off as int + 4)),
{
    // The length call brings the vector's length bound into scope for the
    // index arithmetic below.
    let n = v.len();
    assert(off + 4 <= n);
    ((v[off] as u32) << 24) | ((v[off + 1] as u32) << 16) | ((v[off + 2] as u32) << 8)
        | (v[off + 3] as u32)
}

/// The size in bytes of one encoded entry whose payload has `data_len` bytes
/// and whose header starts at `start`: an 8-byte length, a 4-byte checksum,
/// the payload, and zero padding carrying the end to a `pad_size` boundary.
pub open spec fn entry_size(data_len: int, start: int, pad_size: int) -> int {
    12 + data_len + pad_len(start + 12 + data_len, pad_size)
}

/// The exact bytes of one encoded entry whose header starts at `start`.
pub open spec fn entry_bytes(data: Seq<u8>, start: int, pad_size: int) -> Seq<u8> {
    u64_be_bytes(data.len() as u64) + u32_be_bytes(crc32_of(data)) + data
        + zeros(pad_len(start + 12 + data.len(), pad_size))
}

/// What reading at offset `off` of the container `file` yields: the payload
/// together with the offset to continue from, or the error.  A header or
/// payload that runs past the end of the container is a short read.
pub open spec fn read_at(file: Seq<u8>, pad_size: int, off: int) -> Result<(Seq<u8>, int), Error> {
    if off < 0 || off + 12 > file.len() {
        Err(Error::IO)
    } else {
        let len = u64_from_be(file.subrange(off, off + 8)) as int;
        if off + 12 + len > file.len() {
            Err(Error::IO)
        } else {
            let stored = u32_from_be(file.subrange(off + 8, off + 12));
            let payload = file.subrange(off + 12, off + 12 + len);
            if crc32_of(payload) != stored {
                Err(Error::InvalidChecksum)
            } else {
                Ok((payload, off + 12 + len + pad_len(off + 12 + len, pad_size)))
            }
        }
    }
}

/// Padding carries a nonnegative position to the next `align` boundary.
pub proof fn lemma_pad_len(pos: int, align: int)
    requires
        align > 0,
        pos >= 0,
    ensures
        1 <= pad_len(pos, align) <= align,
        (pos + pad_len(pos, align)) % align == 0,
{
    let r = pos % align;
    assert(0 <= r < align);
    vstd::arithmetic::div_mod::lemma_fundamental_div_mod(pos, align);
    let q = pos / align;
    assert(pos == align * q + r);
    assert(pos + pad_len(pos, align) == align * (q + 1)) by (nonlinear_arith)
        requires
            pos == align * q + r,
            pad_len(pos, align) == align - r,
    ;
    assert((align * (q + 1)) % align == 0) by {
        vstd::arithmetic::div_mod::lemma_mod_multiples_basic(q + 1, align);
    }
}

} // verus!

//! Primitive codec: little-endian integers, booleans, raw bytes and padding.
use vstd::prelude::*;

verus! {

/// Why a byte sequence could not be decoded.
#[derive(Debug, Clone, Copy, PartialEq, Eq, Structural)]
pub enum DecodeError {
    /// Fewer bytes were left than a field requires.
    TruncatedInput,
    /// A closed union met a tag outside its declared set.
    UnknownDiscriminant,
    /// A declared count would read past the end of the frame.
    LengthInconsistency,
}

/// The bytes a decoder at `pos` has still to read.
pub open spec fn remaining(s: Seq<u8>, pos: int) -> int {
    s.len() - pos
}

/// Value of the little-endian 16-bit integer in the two bytes at `p`.
pub open spec fn le16_at(s: Seq<u8>, p: int) -> u16 {
    (s[p] as int + 256 * s[p + 1] as int) as u16
}

/// Value of the little-endian 32-bit integer in the four bytes at `p`.
pub open spec fn le32_at(s: Seq<u8>, p: int) -> u32 {
    (s[p] as int + 256 * s[p + 1] as int + 65536 * s[p + 2] as int + 16777216 * s[p + 3] as int) as u32
}

/// Value of the little-endian 64-bit integer in the eight bytes at `p`.
pub open spec fn le64_at(s: Seq<u8>, p: int) -> u64 {
    (le32_at(s, p) as int + 4294967296 * le32_at(s, p + 4) as int) as u64
}

/// A boolean byte: anything but zero is true.
pub open spec fn bool_at(s: Seq<u8>, p: int) -> bool {
    s[p] != 0
}

pub open spec fn u8_le(v: u8) -> Seq<u8> {
    seq![v]
}

pub open spec fn u16_le(v: u16) -> Seq<u8> {
    seq![(v % 256) as u8, (v / 256) as u8]
}

pub open spec fn u32_le(v: u32) -> Seq<u8> {
    seq![(v % 256) as u8, ((v / 256) % 256) as u8, ((v / 65536) % 256) as u8, (v / 16777216) as u8]
}

pub open spec fn u64_le(v: u64) -> Seq<u8> {
    u32_le((v % 4294967296) as u32) + u32_le((v / 4294967296) as u32)
}

/// A boolean is written as one byte, 1 or 0.
pub open spec fn bool_le(b: bool) -> Seq<u8> {
    seq![if b { 1u8 } else { 0u8 }]
}

/// A padding span of `n` bytes, always written as zeros.
pub open spec fn zeros(n: nat) -> Seq<u8> {
    Seq::new(n, |i: int| 0u8)
}

pub proof fn lemma_u16_round_trip(v: u16)
    ensures
        le16_at(u16_le(v), 0) == v,
{
}

pub proof fn lemma_u32_round_trip(v: u32)
    ensures
        le32_at(u32_le(v), 0) == v,
{
    let b0 = v % 256;
    let q0 = v / 256;
    let b1 = q0 % 256;
    let q1 = q0 / 256;
    let b2 = q1 % 256;
    let b3 = q1 / 256;
    assert(v / 65536 == q1);
    assert(v / 16777216 == b3);
}

pub proof fn lemma_u64_round_trip(v: u64)
    ensures
        le64_at(u64_le(v), 0) == v,
{
    let lo = (v % 4294967296) as u32;
    let hi = (v / 4294967296) as u32;
    lemma_u32_round_trip(lo);
    lemma_u32_round_trip(hi);
    let s = u64_le(v);
    assert(le32_at(s, 0) == le32_at(u32_le(lo), 0));
    assert(le32_at(s, 4) == le32_at(u32_le(hi), 0));
}

pub proof fn lemma_le16_in(s: Seq<u8>, o: int, v: u16)
    requires
        0 <= o,
        o + 2 <= s.len(),
        s.subrange(o, o + 2) == u16_le(v),
    ensures
        le16_at(s, o) == v,
{
    lemma_u16_round_trip(v);
    assert(s[o] == s.subrange(o, o + 2)[0] && s[o + 1] == s.subrange(o, o + 2)[1]);
}

pub proof fn lemma_le32_in(s: Seq<u8>, o: int, v: u32)
    requires
        0 <= o,
        o + 4 <= s.len(),
        s.subrange(o, o + 4) == u32_le(v),
    ensures
        le32_at(s, o) == v,
{
    lemma_u32_round_trip(v);
    let t = s.subrange(o, o + 4);
    assert(s[o] == t[0] && s[o + 1] == t[1] && s[o + 2] == t[2] && s[o + 3] == t[3]);
}

pub proof fn lemma_le64_in(s: Seq<u8>, o: int, v: u64)
    requires
        0 <= o,
        o + 8 <= s.len(),
        s.subrange(o, o + 8) == u64_le(v),
    ensures
        le64_at(s, o) == v,
{
    lemma_u64_round_trip(v);
    let t = s.subrange(o, o + 8);
    assert(s[o] == t[0] && s[o + 1] == t[1] && s[o + 2] == t[2] && s[o + 3] == t[3]);
    assert(s[o + 4] == t[4] && s[o + 5] == t[5] && s[o + 6] == t[6] && s[o + 7] == t[7]);
}

pub proof fn lemma_bool_in(s: Seq<u8>, o: int, b: bool)
    requires
        0 <= o,
        o + 1 <= s.len(),
        s.subrange(o, o + 1) == bool_le(b),
    ensures
        bool_at(s, o) == b,
{
    assert(s[o] == s.subrange(o, o + 1)[0]);
}

/// Little-endian bytes of a run of 32-bit integers.
pub open spec fn u32s_le(v: Seq<u32>) -> Seq<u8> {
    Seq::new(4 * v.len(), |i: int| u32_le(v[i / 4])[i % 4])
}

/// `s` holds exactly the 32-bit integers `v`.
pub open spec fn u32s_dec(s: Seq<u8>, v: Seq<u32>) -> bool {
    &&& s.len() == 4 * v.len()
    &&& forall|i: int| 0 <= i < v.len() ==> #[trigger] v[i] == le32_at(s, 4 * i)
}

pub proof fn lemma_u32s_round_trip(v: Seq<u32>)
    ensures
        u32s_dec(u32s_le(v), v),
{
    let s = u32s_le(v);
    assert forall|i: int| 0 <= i < v.len() implies #[trigger] v[i] == le32_at(s, 4 * i) by {
        assert(s.subrange(4 * i, 4 * i + 4) =~= u32_le(v[i]));
        lemma_le32_in(s, 4 * i, v[i]);
    }
}

/// Checks that `n` bytes are left at `pos`.
pub fn has_bytes(buf: &[u8], pos: usize, n: usize) -> (r: bool)
    requires
        pos <= buf@.len(),
    ensures
        r == (remaining(buf@, pos as int) >= n),
        r ==> pos + n <= buf@.len() <= usize::MAX,
{
    buf.len() - pos >= n
}

/// Reads one byte.
pub fn read_u8(buf: &[u8], pos: usize) -> (r: Result<(u8, usize), DecodeError>)
    requires
        pos <= buf@.len(),
    ensures
        remaining(buf@, pos as int) >= 1 ==> r == Ok::<(u8, usize), DecodeError>((buf@[pos as int], (pos + 1) as usize)),
        remaining(buf@, pos as int) < 1 ==> r == Err::<(u8, usize), DecodeError>(DecodeError::TruncatedInput),
{
    if !has_bytes(buf, pos, 1) {
        return Err(DecodeError::TruncatedInput);
    }
    Ok((buf[pos], pos + 1))
}

/// Reads a little-endian 16-bit integer.
pub fn read_u16(buf: &[u8], pos: usize) -> (r: Result<(u16, usize), DecodeError>)
    requires
        pos <= buf@.len(),
    ensures
        remaining(buf@, pos as int) >= 2 ==> r == Ok::<(u16, usize), DecodeError>((le16_at(buf@, pos as int), (pos + 2) as usize)),
        remaining(buf@, pos as int) < 2 ==> r == Err::<(u16, usize), DecodeError>(DecodeError::TruncatedInput),
{
    if !has_bytes(buf, pos, 2) {
        return Err(DecodeError::TruncatedInput);
    }
    let v: u16 = buf[pos] as u16 + 256 * (buf[pos + 1] as u16);
    Ok((v, pos + 2))
}

/// Reads a little-endian 32-bit integer.
pub fn read_u32(buf: &[u8], pos: usize) -> (r: Result<(u32, usize), DecodeError>)
    requires
        pos <= buf@.len(),
    ensures
        remaining(buf@, pos as int) >= 4 ==> r == Ok::<(u32, usize), DecodeError>((le32_at(buf@, pos as int), (pos + 4) as usize)),
        remaining(buf@, pos as int) < 4 ==> r == Err::<(u32, usize), DecodeError>(DecodeError::TruncatedInput),
{
    if !has_bytes(buf, pos, 4) {
        return Err(DecodeError::TruncatedInput);
    }
    let b0 = buf[pos] as u32;
    let b1 = buf[pos + 1] as u32;
    let b2 = buf[pos + 2] as u32;
    let b3 = buf[pos + 3] as u32;
    assert(b0 + 256 * b1 + 65536 * b2 + 16777216 * b3 <= 4294967295) by (nonlinear_arith)
        requires
            b0 <= 255,
            b1 <= 255,
            b2 <= 255,
            b3 <= 255,
    ;
    let v: u32 = b0 + 256 * b1 + 65536 * b2 + 16777216 * b3;
    Ok((v, pos + 4))
}

/// Reads a little-endian 64-bit integer.
pub fn read_u64(buf: &[u8], pos: usize) -> (r: Result<(u64, usize), DecodeError>)
    requires
        pos <= buf@.len(),
    ensures
        remaining(buf@, pos as int) >= 8 ==> r == Ok::<(u64, usize), DecodeError>((le64_at(buf@, pos as int), (pos + 8) as usize)),
        remaining(buf@, pos as int) < 8 ==> r == Err::<(u64, usize), DecodeError>(DecodeError::TruncatedInput),
{
    if !has_bytes(buf, pos, 8) {
        return Err(DecodeError::TruncatedInput);
    }
    let (lo, p) = read_u32(buf, pos)?;
    let (hi, p) = read_u32(buf, p)?;
    assert(lo == le32_at(buf@, pos as int) && hi == le32_at(buf@, pos + 4));
    assert(lo as u64 + 4294967296 * (hi as u64) <= 18446744073709551615u64) by (nonlinear_arith)
        requires
            lo <= 4294967295u32,
            hi <= 4294967295u32,
    ;
    let v: u64 = lo as u64 + 4294967296 * (hi as u64);
    Ok((v, p))
}

/// Reads a boolean byte; anything but zero is true.
pub fn read_bool(buf: &[u8], pos: usize) -> (r: Result<(bool, usize), DecodeError>)
    requires
        pos <= buf@.len(),
    ensures
        remaining(buf@, pos as int) >= 1 ==> r == Ok::<(bool, usize), DecodeError>((bool_at(buf@, pos as int), (pos + 1) as usize)),
        remaining(buf@, pos as int) < 1 ==> r == Err::<(bool, usize), DecodeError>(DecodeError::TruncatedInput),
{
    let (b, p) = read_u8(buf, pos)?;
    Ok((b != 0, p))
}

/// Skips a padding span of `n` bytes without looking at them.
pub fn skip(buf: &[u8], pos: usize, n: usize) -> (r: Result<usize, DecodeError>)
    requires
        pos <= buf@.len(),
    ensures
        remaining(buf@, pos as int) >= n ==> r == Ok::<usize, DecodeError>((pos + n) as usize),
        remaining(buf@, pos as int) < n ==> r == Err::<usize, DecodeError>(DecodeError::TruncatedInput),
{
    if !has_bytes(buf, pos, n) {
        return Err(DecodeError::TruncatedInput);
    }
    Ok(pos + n)
}

/// Reads exactly `n` bytes with no interpretation.
pub fn read_bytes(buf: &[u8], pos: usize, n: usize) -> (r: Result<(Vec<u8>, usize), DecodeError>)
    requires
        pos <= buf@.len(),
    ensures
        remaining(buf@, pos as int) >= n ==> r is Ok && r->Ok_0.0@ == buf@.subrange(pos as int, pos + n) && r->Ok_0.1 == pos + n,
        remaining(buf@, pos as int) < n ==> r == Err::<(Vec<u8>, usize), DecodeError>(DecodeError::TruncatedInput),
{
    if !has_bytes(buf, pos, n) {
        return Err(DecodeError::TruncatedInput);
    }
    let mut out: Vec<u8> = Vec::with_capacity(n);
    let mut i: usize = 0;
    while i < n
        invariant
            i <= n,
            pos + n <= buf@.len() <= usize::MAX,
            out@ == buf@.subrange(pos as int, pos + i),
        decreases n - i,
    {
        out.push(buf[pos + i]);
        i = i + 1;
        assert(out@ =~= buf@.subrange(pos as int, pos + i));
    }
    Ok((out, pos + n))
}

/// Reads every byte from `pos` to the end of the frame.
pub fn read_rest(buf: &[u8], pos: usize) -> (r: (Vec<u8>, usize))
    requires
        pos <= buf@.len(),
    ensures
        r.0@ == buf@.subrange(pos as int, buf@.len() as int),
        r.1 == buf@.len(),
{
    match read_bytes(buf, pos, buf.len() - pos) {
        Ok(x) => x,
        Err(_) => (Vec::new(), buf.len()),
    }
}

/// Reads `count` little-endian 32-bit integers.
pub fn read_u32s(buf: &[u8], pos: usize, count: usize) -> (r: Result<(Vec<u32>, usize), DecodeError>)
    requires
        pos <= buf@.len(),
    ensures
        remaining(buf@, pos as int) >= 4 * count ==> r is Ok && r->Ok_0.1 == pos + 4 * count
            && u32s_dec(buf@.subrange(pos as int, pos + 4 * count), r->Ok_0.0@),
        remaining(buf@, pos as int) < 4 * count ==> r == Err::<(Vec<u32>, usize), DecodeError>(DecodeError::TruncatedInput),
{
    if (buf.len() - pos) / 4 < count {
        return Err(DecodeError::TruncatedInput);
    }
    let mut v: Vec<u32> = Vec::with_capacity(count);
    let mut i: usize = 0;
    while i < count
        invariant
            i <= count,
            pos + 4 * count <= buf@.len() <= usize::MAX,
            v@.len() == i,
            forall|j: int| 0 <= j < i ==> #[trigger] v@[j] == le32_at(buf@, pos + 4 * j),
        decreases count - i,
    {
        let (x, _) = read_u32(buf, pos + 4 * i)?;
        v.push(x);
        i = i + 1;
    }
    let ghost sub = buf@.subrange(pos as int, pos + 4 * count);
    assert forall|j: int| 0 <= j < v@.len() implies #[trigger] v@[j] == le32_at(sub, 4 * j) by {
        assert(sub[4 * j] == buf@[pos + 4 * j] && sub[4 * j + 1] == buf@[pos + 4 * j + 1]);
        assert(sub[4 * j + 2] == buf@[pos + 4 * j + 2] && sub[4 * j + 3] == buf@[pos + 4 * j + 3]);
    }
    Ok((v, pos + 4 * count))
}

/// Writes 32-bit integers, four little-endian bytes each.
pub fn write_u32s(out: &mut Vec<u8>, v: &[u32])
    ensures
        final(out)@ == old(out)@ + u32s_le(v@),
{
    let ghost start = out@;
    let mut i: usize = 0;
    while i < v.len()
        invariant
            i <= v@.len(),
            out@ == start + u32s_le(v@.subrange(0, i as int)),
        decreases v@.len() - i,
    {
        write_u32(out, v[i]);
        i = i + 1;
        let ghost w = u32s_le(v@.subrange(0, i as int));
        assert forall|k: int| 0 <= k < w.len() implies #[trigger] w[k] == (u32s_le(v@.subrange(0, i - 1)) + u32_le(v@[i - 1]))[k] by {
            if k < 4 * (i - 1) {
                assert(k / 4 < i - 1);
            } else {
                assert(k / 4 == i - 1);
            }
        }
        assert(w =~= u32s_le(v@.subrange(0, i - 1)) + u32_le(v@[i - 1]));
        assert(out@ =~= start + w);
    }
    assert(v@.subrange(0, v@.len() as int) =~= v@);
}

pub fn write_u8(out: &mut Vec<u8>, v: u8)
    ensures
        final(out)@ == old(out)@ + u8_le(v),
{
    out.push(v);
    assert(final(out)@ =~= old(out)@ + u8_le(v));
}

pub fn write_u16(out: &mut Vec<u8>, v: u16)
    ensures
        final(out)@ == old(out)@ + u16_le(v),
{
    out.push((v % 256) as u8);
    out.push((v / 256) as u8);
    assert(final(out)@ =~= old(out)@ + u16_le(v));
}

pub fn write_u32(out: &mut Vec<u8>, v: u32)
    ensures
        final(out)@ == old(out)@ + u32_le(v),
{
    out.push((v % 256) as u8);
    out.push(((v / 256) % 256) as u8);
    out.push(((v / 65536) % 256) as u8);
    out.push((v / 16777216) as u8);
    assert(final(out)@ =~= old(out)@ + u32_le(v));
}

pub fn write_u64(out: &mut Vec<u8>, v: u64)
    ensures
        final(out)@ == old(out)@ + u64_le(v),
{
    let ghost start = out@;
    write_u32(out, (v % 4294967296) as u32);
    write_u32(out, (v / 4294967296) as u32);
    assert(final(out)@ =~= start + u64_le(v));
}

pub fn write_bool(out: &mut Vec<u8>, b: bool)
    ensures
        final(out)@ == old(out)@ + bool_le(b),
{
    write_u8(out, if b { 1 } else { 0 });
}

/// Writes a padding span: `n` zero bytes.
pub fn write_padding(out: &mut Vec<u8>, n: usize)
    ensures
        final(out)@ == old(out)@ + zeros(n as nat),
{
    let ghost start = out@;
    let mut i: usize = 0;
    while i < n
        invariant
            i <= n,
            out@ == start + zeros(i as nat),
        decreases n - i,
    {
        out.push(0);
        i = i + 1;
        assert(out@ =~= start + zeros(i as nat));
    }
}

/// Writes raw bytes.
pub fn write_bytes(out: &mut Vec<u8>, bytes: &[u8])
    ensures
        final(out)@ == old(out)@ + bytes@,
{
    let ghost start = out@;
    let mut i: usize = 0;
    while i < bytes.len()
        invariant
            i <= bytes@.len(),
            out@ == start + bytes@.subrange(0, i as int),
        decreases bytes@.len() - i,
    {
        out.push(bytes[i]);
        i = i + 1;
        assert(out@ =~= start + bytes@.subrange(0, i as int));
    }
    assert(bytes@.subrange(0, bytes@.len() as int) =~= bytes@);
}

} // verus!

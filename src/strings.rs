//! String codecs: fixed-capacity ASCII and wide strings, and the raw 16-bit
//! code units of variable-length wide strings.
use vstd::prelude::*;
use crate::wire::{
    has_bytes, le16_at, read_u16, remaining, write_bytes, write_padding, write_u16, u16_le, zeros,
    DecodeError,
};

verus! {

/// The text that `String::from_utf16_lossy` makes of the code units `units`.
pub uninterp spec fn utf16_lossy(units: Seq<u16>) -> Seq<char>;

/// Relies on `String::from_utf16_lossy`: the text of the code units, with
/// U+FFFD in place of each ill-formed sequence. It never fails, and no units
/// give no text.
#[verifier::external_body]
pub(crate) fn lossy_text(units: &[u16]) -> (r: String)
    ensures
        r@ == utf16_lossy(units@),
        units@.len() == 0 ==> r@.len() == 0,
{
    String::from_utf16_lossy(units)
}

/// Little-endian bytes of a run of 16-bit code units.
pub open spec fn wide_le(v: Seq<u16>) -> Seq<u8> {
    Seq::new(2 * v.len(), |i: int| if i % 2 == 0 { (v[i / 2] % 256) as u8 } else { (v[i / 2] / 256) as u8 })
}

/// `s` holds exactly the code units `v`.
pub open spec fn wide_units_dec(s: Seq<u8>, v: Seq<u16>) -> bool {
    &&& s.len() == 2 * v.len()
    &&& forall|i: int| 0 <= i < v.len() ==> #[trigger] v[i] == le16_at(s, 2 * i)
}

/// Content that fits a fixed region of `cap` units: room for the terminator,
/// and no terminator inside.
pub open spec fn fixed_valid(v: Seq<u16>, cap: nat) -> bool {
    &&& v.len() < cap
    &&& forall|i: int| 0 <= i < v.len() ==> #[trigger] v[i] != 0
}

/// The fixed region of `cap` code units holding `v`: content, then zeros.
pub open spec fn fixed_wide_wire(v: Seq<u16>, cap: nat) -> Seq<u8> {
    wide_le(v) + zeros((2 * (cap - v.len())) as nat)
}

/// The fixed region `s` of `cap` code units decodes to `v`: the units before
/// the first zero unit, or all of them where there is none.
pub open spec fn fixed_wide_dec(s: Seq<u8>, cap: nat, v: Seq<u16>) -> bool {
    &&& s.len() == 2 * cap
    &&& v.len() <= cap
    &&& forall|i: int| 0 <= i < v.len() ==> #[trigger] v[i] == le16_at(s, 2 * i) && v[i] != 0
    &&& v.len() < cap ==> le16_at(s, 2 * v.len() as int) == 0
}

/// Content that fits a fixed ASCII region of `cap` bytes.
pub open spec fn fixed_ascii_valid(v: Seq<u8>, cap: nat) -> bool {
    &&& v.len() < cap
    &&& forall|i: int| 0 <= i < v.len() ==> #[trigger] v[i] != 0
}

pub open spec fn fixed_ascii_wire(v: Seq<u8>, cap: nat) -> Seq<u8> {
    v + zeros((cap - v.len()) as nat)
}

/// The fixed region `s` of `cap` bytes decodes to `v`: the bytes before the
/// first zero byte, or all of them where there is none.
pub open spec fn fixed_ascii_dec(s: Seq<u8>, cap: nat, v: Seq<u8>) -> bool {
    &&& s.len() == cap
    &&& v.len() <= cap
    &&& forall|i: int| 0 <= i < v.len() ==> #[trigger] v[i] == s[i] && v[i] != 0
    &&& v.len() < cap ==> s[v.len() as int] == 0
}

pub proof fn lemma_wide_units_round_trip(v: Seq<u16>)
    ensures
        wide_units_dec(wide_le(v), v),
{
    let s = wide_le(v);
    assert forall|i: int| 0 <= i < v.len() implies #[trigger] v[i] == le16_at(s, 2 * i) by {
        assert((2 * i) / 2 == i);
        assert((2 * i + 1) / 2 == i);
        assert((2 * i + 1) % 2 == 1);
    }
}

pub proof fn lemma_fixed_wide_round_trip(v: Seq<u16>, cap: nat)
    requires
        fixed_valid(v, cap),
    ensures
        fixed_wide_dec(fixed_wide_wire(v, cap), cap, v),
{
    let s = fixed_wide_wire(v, cap);
    let w = wide_le(v);
    lemma_wide_units_round_trip(v);
    assert forall|i: int| 0 <= i < v.len() implies #[trigger] v[i] == le16_at(s, 2 * i) && v[i] != 0 by {
        assert(v[i] == le16_at(w, 2 * i));
        assert(s[2 * i] == w[2 * i] && s[2 * i + 1] == w[2 * i + 1]);
    }
    assert(s[2 * v.len() as int] == 0 && s[2 * v.len() as int + 1] == 0);
}

pub proof fn lemma_fixed_ascii_round_trip(v: Seq<u8>, cap: nat)
    requires
        fixed_ascii_valid(v, cap),
    ensures
        fixed_ascii_dec(fixed_ascii_wire(v, cap), cap, v),
{
    let s = fixed_ascii_wire(v, cap);
    assert forall|i: int| 0 <= i < v.len() implies #[trigger] v[i] == s[i] && v[i] != 0 by {}
    assert(s[v.len() as int] == 0);
}

/// Reads `count` little-endian code units.
pub fn read_wide_units(buf: &[u8], pos: usize, count: usize) -> (r: Result<(Vec<u16>, usize), DecodeError>)
    requires
        pos <= buf@.len(),
    ensures
        remaining(buf@, pos as int) >= 2 * count ==> r is Ok && r->Ok_0.1 == pos + 2 * count
            && wide_units_dec(buf@.subrange(pos as int, pos + 2 * count), r->Ok_0.0@),
        remaining(buf@, pos as int) < 2 * count ==> r == Err::<(Vec<u16>, usize), DecodeError>(DecodeError::TruncatedInput),
{
    if (buf.len() - pos) / 2 < count {
        return Err(DecodeError::TruncatedInput);
    }
    let mut v: Vec<u16> = Vec::with_capacity(count);
    let mut i: usize = 0;
    while i < count
        invariant
            i <= count,
            pos + 2 * count <= buf@.len() <= usize::MAX,
            v@.len() == i,
            forall|j: int| 0 <= j < i ==> #[trigger] v@[j] == le16_at(buf@, pos + 2 * j),
        decreases count - i,
    {
        let (u, _) = read_u16(buf, pos + 2 * i)?;
        v.push(u);
        i = i + 1;
    }
    let ghost sub = buf@.subrange(pos as int, pos + 2 * count);
    assert forall|j: int| 0 <= j < v@.len() implies #[trigger] v@[j] == le16_at(sub, 2 * j) by {
        assert(sub[2 * j] == buf@[pos + 2 * j] && sub[2 * j + 1] == buf@[pos + 2 * j + 1]);
    }
    Ok((v, pos + 2 * count))
}

/// Reads a fixed region of `cap` code units, keeping those before the first
/// zero unit.
pub fn read_fixed_wide(buf: &[u8], pos: usize, cap: usize) -> (r: Result<(Vec<u16>, usize), DecodeError>)
    requires
        pos <= buf@.len(),
        cap <= 4096,
    ensures
        remaining(buf@, pos as int) >= 2 * cap ==> r is Ok && r->Ok_0.1 == pos + 2 * cap
            && fixed_wide_dec(buf@.subrange(pos as int, pos + 2 * cap), cap as nat, r->Ok_0.0@),
        remaining(buf@, pos as int) < 2 * cap ==> r == Err::<(Vec<u16>, usize), DecodeError>(DecodeError::TruncatedInput),
{
    if !has_bytes(buf, pos, 2 * cap) {
        return Err(DecodeError::TruncatedInput);
    }
    let mut v: Vec<u16> = Vec::new();
    let mut i: usize = 0;
    let mut done = false;
    while i < cap && !done
        invariant
            i <= cap,
            pos + 2 * cap <= buf@.len() <= usize::MAX,
            v@.len() == i,
            forall|j: int| 0 <= j < i ==> #[trigger] v@[j] == le16_at(buf@, pos + 2 * j) && v@[j] != 0,
            done ==> i < cap && le16_at(buf@, pos + 2 * i) == 0,
        decreases cap - i + (if done { 0int } else { 1int }),
    {
        let (u, _) = read_u16(buf, pos + 2 * i)?;
        if u == 0 {
            done = true;
        } else {
            v.push(u);
            i = i + 1;
        }
    }
    let ghost sub = buf@.subrange(pos as int, pos + 2 * cap);
    assert forall|j: int| 0 <= j < v@.len() implies #[trigger] v@[j] == le16_at(sub, 2 * j) && v@[j] != 0 by {
        assert(sub[2 * j] == buf@[pos + 2 * j] && sub[2 * j + 1] == buf@[pos + 2 * j + 1]);
    }
    if i < cap {
        assert(sub[2 * i] == buf@[pos + 2 * i] && sub[2 * i + 1] == buf@[pos + 2 * i + 1]);
    }
    Ok((v, pos + 2 * cap))
}

/// Reads a fixed region of `cap` bytes, keeping those before the first zero.
pub fn read_fixed_ascii(buf: &[u8], pos: usize, cap: usize) -> (r: Result<(Vec<u8>, usize), DecodeError>)
    requires
        pos <= buf@.len(),
    ensures
        remaining(buf@, pos as int) >= cap ==> r is Ok && r->Ok_0.1 == pos + cap
            && fixed_ascii_dec(buf@.subrange(pos as int, pos + cap), cap as nat, r->Ok_0.0@),
        remaining(buf@, pos as int) < cap ==> r == Err::<(Vec<u8>, usize), DecodeError>(DecodeError::TruncatedInput),
{
    if !has_bytes(buf, pos, cap) {
        return Err(DecodeError::TruncatedInput);
    }
    let mut v: Vec<u8> = Vec::new();
    let mut i: usize = 0;
    let mut done = false;
    while i < cap && !done
        invariant
            i <= cap,
            pos + cap <= buf@.len() <= usize::MAX,
            v@.len() == i,
            forall|j: int| 0 <= j < i ==> #[trigger] v@[j] == buf@[pos + j] && v@[j] != 0,
            done ==> i < cap && buf@[pos + i] == 0,
        decreases cap - i + (if done { 0int } else { 1int }),
    {
        let b = buf[pos + i];
        if b == 0 {
            done = true;
        } else {
            v.push(b);
            i = i + 1;
        }
    }
    Ok((v, pos + cap))
}

/// Writes code units, two little-endian bytes each.
pub fn write_wide_units(out: &mut Vec<u8>, v: &[u16])
    ensures
        final(out)@ == old(out)@ + wide_le(v@),
{
    let ghost start = out@;
    let mut i: usize = 0;
    while i < v.len()
        invariant
            i <= v@.len(),
            out@ == start + wide_le(v@.subrange(0, i as int)),
        decreases v@.len() - i,
    {
        write_u16(out, v[i]);
        i = i + 1;
        let ghost w = wide_le(v@.subrange(0, i as int));
        assert forall|k: int| 0 <= k < w.len() implies #[trigger] w[k] == (wide_le(v@.subrange(0, i - 1)) + u16_le(v@[i - 1]))[k] by {
            if k < 2 * (i - 1) {
                assert(k / 2 < i - 1);
            } else {
                assert(k / 2 == i - 1);
            }
        }
        assert(w =~= wide_le(v@.subrange(0, i - 1)) + u16_le(v@[i - 1]));
        assert(out@ =~= start + w);
    }
    assert(v@.subrange(0, v@.len() as int) =~= v@);
}

/// Writes a fixed region of `cap` code units: the content, then zeros.
pub fn write_fixed_wide(out: &mut Vec<u8>, v: &[u16], cap: usize)
    requires
        v@.len() < cap <= 4096,
    ensures
        final(out)@ == old(out)@ + fixed_wide_wire(v@, cap as nat),
{
    let ghost start = out@;
    write_wide_units(out, v);
    write_padding(out, 2 * (cap - v.len()));
    assert(final(out)@ =~= start + fixed_wide_wire(v@, cap as nat));
}

/// Writes a fixed region of `cap` bytes: the content, then zeros.
pub fn write_fixed_ascii(out: &mut Vec<u8>, v: &[u8], cap: usize)
    requires
        v@.len() < cap,
    ensures
        final(out)@ == old(out)@ + fixed_ascii_wire(v@, cap as nat),
{
    let ghost start = out@;
    write_bytes(out, v);
    write_padding(out, cap - v.len());
    assert(final(out)@ =~= start + fixed_ascii_wire(v@, cap as nat));
}

} // verus!

//! Value types shared by many messages: object ids, zone ids, positions and
//! fixed-capacity strings.
use vstd::prelude::*;
use crate::strings::{
    fixed_ascii_dec, fixed_ascii_valid, fixed_ascii_wire, fixed_valid, fixed_wide_dec,
    fixed_wide_wire, lemma_fixed_ascii_round_trip, lossy_text, utf16_lossy, lemma_fixed_wide_round_trip, read_fixed_ascii,
    read_fixed_wide, write_fixed_ascii, write_fixed_wide,
};
use crate::wire::{
    has_bytes, le16_at, le32_at, lemma_u16_round_trip, lemma_u32_round_trip, read_u16, read_u32, remaining,
    u16_le, u32_le, write_u16, write_u32, DecodeError,
};

verus! {

/// Id of a game object, sent as a little-endian 64-bit integer.
pub type ObjId = u64;

/// Id of an object template, sent as a little-endian 32-bit integer.
pub type Lot = u32;

/// A zone: map, instance and clone; eight bytes on the wire.
#[derive(Debug, Clone, Copy, PartialEq, Eq, Structural)]
pub struct ZoneId {
    pub map_id: u16,
    pub instance_id: u16,
    pub clone_id: u32,
}

impl ZoneId {
    pub open spec fn wire(&self) -> Seq<u8> {
        u16_le(self.map_id) + u16_le(self.instance_id) + u32_le(self.clone_id)
    }

    pub open spec fn decodes(s: Seq<u8>, v: ZoneId) -> bool {
        &&& s.len() == 8
        &&& v.map_id == le16_at(s, 0)
        &&& v.instance_id == le16_at(s, 2)
        &&& v.clone_id == le32_at(s, 4)
    }

    pub fn serialize(&self, out: &mut Vec<u8>)
        ensures
            final(out)@ == old(out)@ + self.wire(),
    {
        let ghost start = out@;
        write_u16(out, self.map_id);
        write_u16(out, self.instance_id);
        write_u32(out, self.clone_id);
        assert(final(out)@ =~= start + self.wire());
    }

    pub fn deserialize(buf: &[u8], pos: usize) -> (r: Result<(ZoneId, usize), DecodeError>)
        requires
            pos <= buf@.len(),
        ensures
            r is Ok <==> remaining(buf@, pos as int) >= 8,
            r is Err ==> r->Err_0 == DecodeError::TruncatedInput,
            r is Ok ==> r->Ok_0.1 == pos + 8 && Self::decodes(buf@.subrange(pos as int, pos + 8), r->Ok_0.0),
    {
        if !has_bytes(buf, pos, 8) {
            return Err(DecodeError::TruncatedInput);
        }
        let (map_id, p) = read_u16(buf, pos)?;
        let (instance_id, p) = read_u16(buf, p)?;
        let (clone_id, p) = read_u32(buf, p)?;
        Ok((ZoneId { map_id, instance_id, clone_id }, p))
    }

    /// Decoding the encoding of a zone id gives that zone id back.
    pub proof fn lemma_round_trip(m: ZoneId)
        ensures
            Self::decodes(m.wire(), m),
    {
        lemma_u16_round_trip(m.map_id);
        lemma_u16_round_trip(m.instance_id);
        lemma_u32_round_trip(m.clone_id);
    }
}

/// A position as the bit patterns of three 32-bit floats.
#[derive(Debug, Clone, Copy, PartialEq, Eq, Structural)]
pub struct Vector3 {
    pub x: u32,
    pub y: u32,
    pub z: u32,
}

impl Vector3 {
    pub open spec fn wire(&self) -> Seq<u8> {
        u32_le(self.x) + u32_le(self.y) + u32_le(self.z)
    }

    pub open spec fn decodes(s: Seq<u8>, v: Vector3) -> bool {
        &&& s.len() == 12
        &&& v.x == le32_at(s, 0)
        &&& v.y == le32_at(s, 4)
        &&& v.z == le32_at(s, 8)
    }

    pub fn serialize(&self, out: &mut Vec<u8>)
        ensures
            final(out)@ == old(out)@ + self.wire(),
    {
        let ghost start = out@;
        write_u32(out, self.x);
        write_u32(out, self.y);
        write_u32(out, self.z);
        assert(final(out)@ =~= start + self.wire());
    }

    pub fn deserialize(buf: &[u8], pos: usize) -> (r: Result<(Vector3, usize), DecodeError>)
        requires
            pos <= buf@.len(),
        ensures
            r is Ok <==> remaining(buf@, pos as int) >= 12,
            r is Err ==> r->Err_0 == DecodeError::TruncatedInput,
            r is Ok ==> r->Ok_0.1 == pos + 12 && Self::decodes(buf@.subrange(pos as int, pos + 12), r->Ok_0.0),
    {
        if !has_bytes(buf, pos, 12) {
            return Err(DecodeError::TruncatedInput);
        }
        let (x, p) = read_u32(buf, pos)?;
        let (y, p) = read_u32(buf, p)?;
        let (z, p) = read_u32(buf, p)?;
        Ok((Vector3 { x, y, z }, p))
    }

    /// Decoding the encoding of a position gives that position back.
    pub proof fn lemma_round_trip(m: Vector3)
        ensures
            Self::decodes(m.wire(), m),
    {
        lemma_u32_round_trip(m.x);
        lemma_u32_round_trip(m.y);
        lemma_u32_round_trip(m.z);
    }
}

/// A wide string in a fixed region of 33 code units, terminator included.
#[derive(Debug, Clone, PartialEq, Eq)]
pub struct LuWStr33 {
    pub units: Vec<u16>,
}

/// A wide string in a fixed region of 42 code units, terminator included.
#[derive(Debug, Clone, PartialEq, Eq)]
pub struct LuWStr42 {
    pub units: Vec<u16>,
}

/// An ASCII string in a fixed region of 33 bytes, terminator included.
#[derive(Debug, Clone, PartialEq, Eq)]
pub struct LuString33 {
    pub bytes: Vec<u8>,
}

/// The owned and borrowed fixed wide strings of 33 units share one layout.
pub type LuWString33 = LuWStr33;

impl LuWStr33 {
    pub open spec fn wf(&self) -> bool {
        fixed_valid(self.units@, 33)
    }

    pub open spec fn wire(&self) -> Seq<u8> {
        fixed_wide_wire(self.units@, 33)
    }

    pub open spec fn decodes(s: Seq<u8>, v: LuWStr33) -> bool {
        fixed_wide_dec(s, 33, v.units@)
    }

    /// Accepts content of at most 32 units with no zero unit in it.
    pub fn from_units(units: Vec<u16>) -> (r: Option<LuWStr33>)
        ensures
            r is Some <==> fixed_valid(units@, 33),
            r is Some ==> r->Some_0.units@ == units@,
    {
        if units.len() >= 33 {
            return None;
        }
        let mut i: usize = 0;
        while i < units.len()
            invariant
                i <= units@.len(),
                forall|j: int| 0 <= j < i ==> #[trigger] units@[j] != 0,
            decreases units@.len() - i,
        {
            if units[i] == 0 {
                return None;
            }
            i = i + 1;
        }
        Some(LuWStr33 { units })
    }

    pub fn serialize(&self, out: &mut Vec<u8>)
        requires
            self.wf(),
        ensures
            final(out)@ == old(out)@ + self.wire(),
    {
        write_fixed_wide(out, self.units.as_slice(), 33);
    }

    pub fn deserialize(buf: &[u8], pos: usize) -> (r: Result<(LuWStr33, usize), DecodeError>)
        requires
            pos <= buf@.len(),
        ensures
            r is Ok <==> remaining(buf@, pos as int) >= 66,
            r is Err ==> r->Err_0 == DecodeError::TruncatedInput,
            r is Ok ==> r->Ok_0.1 == pos + 66 && Self::decodes(buf@.subrange(pos as int, pos + 66), r->Ok_0.0),
    {
        let (units, p) = read_fixed_wide(buf, pos, 33)?;
        Ok((LuWStr33 { units }, p))
    }

    /// The content as text; ill-formed code units become U+FFFD.
    pub fn to_text(&self) -> (r: String)
        ensures
            r@ == utf16_lossy(self.units@),
    {
        lossy_text(self.units.as_slice())
    }

    /// Decoding the encoding of a valid string gives that string back.
    pub proof fn lemma_round_trip(m: LuWStr33)
        requires
            m.wf(),
        ensures
            Self::decodes(m.wire(), m),
    {
        lemma_fixed_wide_round_trip(m.units@, 33);
    }
}

impl LuWStr42 {
    pub open spec fn wf(&self) -> bool {
        fixed_valid(self.units@, 42)
    }

    pub open spec fn wire(&self) -> Seq<u8> {
        fixed_wide_wire(self.units@, 42)
    }

    pub open spec fn decodes(s: Seq<u8>, v: LuWStr42) -> bool {
        fixed_wide_dec(s, 42, v.units@)
    }

    /// Accepts content of at most 41 units with no zero unit in it.
    pub fn from_units(units: Vec<u16>) -> (r: Option<LuWStr42>)
        ensures
            r is Some <==> fixed_valid(units@, 42),
            r is Some ==> r->Some_0.units@ == units@,
    {
        if units.len() >= 42 {
            return None;
        }
        let mut i: usize = 0;
        while i < units.len()
            invariant
                i <= units@.len(),
                forall|j: int| 0 <= j < i ==> #[trigger] units@[j] != 0,
            decreases units@.len() - i,
        {
            if units[i] == 0 {
                return None;
            }
            i = i + 1;
        }
        Some(LuWStr42 { units })
    }

    pub fn serialize(&self, out: &mut Vec<u8>)
        requires
            self.wf(),
        ensures
            final(out)@ == old(out)@ + self.wire(),
    {
        write_fixed_wide(out, self.units.as_slice(), 42);
    }

    pub fn deserialize(buf: &[u8], pos: usize) -> (r: Result<(LuWStr42, usize), DecodeError>)
        requires
            pos <= buf@.len(),
        ensures
            r is Ok <==> remaining(buf@, pos as int) >= 84,
            r is Err ==> r->Err_0 == DecodeError::TruncatedInput,
            r is Ok ==> r->Ok_0.1 == pos + 84 && Self::decodes(buf@.subrange(pos as int, pos + 84), r->Ok_0.0),
    {
        let (units, p) = read_fixed_wide(buf, pos, 42)?;
        Ok((LuWStr42 { units }, p))
    }

    /// The content as text; ill-formed code units become U+FFFD.
    pub fn to_text(&self) -> (r: String)
        ensures
            r@ == utf16_lossy(self.units@),
    {
        lossy_text(self.units.as_slice())
    }

    /// Decoding the encoding of a valid string gives that string back.
    pub proof fn lemma_round_trip(m: LuWStr42)
        requires
            m.wf(),
        ensures
            Self::decodes(m.wire(), m),
    {
        lemma_fixed_wide_round_trip(m.units@, 42);
    }
}

impl LuString33 {
    pub open spec fn wf(&self) -> bool {
        fixed_ascii_valid(self.bytes@, 33)
    }

    pub open spec fn wire(&self) -> Seq<u8> {
        fixed_ascii_wire(self.bytes@, 33)
    }

    pub open spec fn decodes(s: Seq<u8>, v: LuString33) -> bool {
        fixed_ascii_dec(s, 33, v.bytes@)
    }

    /// Accepts content of at most 32 bytes with no zero byte in it.
    pub fn from_bytes(bytes: Vec<u8>) -> (r: Option<LuString33>)
        ensures
            r is Some <==> fixed_ascii_valid(bytes@, 33),
            r is Some ==> r->Some_0.bytes@ == bytes@,
    {
        if bytes.len() >= 33 {
            return None;
        }
        let mut i: usize = 0;
        while i < bytes.len()
            invariant
                i <= bytes@.len(),
                forall|j: int| 0 <= j < i ==> #[trigger] bytes@[j] != 0,
            decreases bytes@.len() - i,
        {
            if bytes[i] == 0 {
                return None;
            }
            i = i + 1;
        }
        Some(LuString33 { bytes })
    }

    pub fn serialize(&self, out: &mut Vec<u8>)
        requires
            self.wf(),
        ensures
            final(out)@ == old(out)@ + self.wire(),
    {
        write_fixed_ascii(out, self.bytes.as_slice(), 33);
    }

    pub fn deserialize(buf: &[u8], pos: usize) -> (r: Result<(LuString33, usize), DecodeError>)
        requires
            pos <= buf@.len(),
        ensures
            r is Ok <==> remaining(buf@, pos as int) >= 33,
            r is Err ==> r->Err_0 == DecodeError::TruncatedInput,
            r is Ok ==> r->Ok_0.1 == pos + 33 && Self::decodes(buf@.subrange(pos as int, pos + 33), r->Ok_0.0),
    {
        let (bytes, p) = read_fixed_ascii(buf, pos, 33)?;
        Ok((LuString33 { bytes }, p))
    }

    /// Decoding the encoding of a valid string gives that string back.
    pub proof fn lemma_round_trip(m: LuString33)
        requires
            m.wf(),
        ensures
            Self::decodes(m.wire(), m),
    {
        lemma_fixed_ascii_round_trip(m.bytes@, 33);
    }
}

} // verus!

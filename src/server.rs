//! Messages that a world server receives.
use vstd::prelude::*;
use crate::common::{LuWStr33, LuWStr42, ObjId, ZoneId};
use crate::strings::{
    lemma_wide_units_round_trip, lossy_text, read_wide_units, utf16_lossy, wide_le, wide_units_dec,
    write_wide_units,
};
use crate::wire::{
    has_bytes, le16_at, le32_at, le64_at, lemma_le16_in, lemma_le32_in, lemma_le64_in, lemma_u64_round_trip, read_rest,
    read_u16, read_u32, read_u64, read_u8, remaining, skip, u16_le, u32_le, u64_le, u8_le,
    write_bytes, write_padding, write_u16, write_u32, write_u64, write_u8, zeros, DecodeError,
};

verus! {

/// A client proves who it is: user name, session key and the checksum of its
/// local database.
#[derive(Debug, Clone)]
pub struct ClientValidation {
    pub username: LuWStr33,
    pub session_key: LuWStr33,
    pub fdb_checksum: [u8; 32],
}

impl ClientValidation {
    pub open spec fn wf(&self) -> bool {
        self.username.wf() && self.session_key.wf()
    }

    /// The two names, the checksum, and one filler byte that is always zero.
    pub open spec fn wire(&self) -> Seq<u8> {
        self.username.wire() + self.session_key.wire() + self.fdb_checksum@ + u8_le(0)
    }

    /// The filler byte after the checksum is read and ignored.
    pub open spec fn decodes(s: Seq<u8>, v: ClientValidation) -> bool {
        &&& s.len() == 165
        &&& LuWStr33::decodes(s.subrange(0, 66), v.username)
        &&& LuWStr33::decodes(s.subrange(66, 132), v.session_key)
        &&& v.fdb_checksum@ == s.subrange(132, 164)
    }

    pub fn serialize(&self, out: &mut Vec<u8>)
        requires
            self.wf(),
        ensures
            final(out)@ == old(out)@ + self.wire(),
    {
        let ghost start = out@;
        self.username.serialize(out);
        self.session_key.serialize(out);
        write_bytes(out, &self.fdb_checksum);
        write_u8(out, 0);
        assert(final(out)@ =~= start + self.wire());
    }

    pub fn deserialize(buf: &[u8], pos: usize) -> (r: Result<(ClientValidation, usize), DecodeError>)
        requires
            pos <= buf@.len(),
        ensures
            r is Ok <==> remaining(buf@, pos as int) >= 165,
            r is Err ==> r->Err_0 == DecodeError::TruncatedInput,
            r is Ok ==> r->Ok_0.1 == pos + 165 && Self::decodes(buf@.subrange(pos as int, pos + 165), r->Ok_0.0),
    {
        if !has_bytes(buf, pos, 165) {
            return Err(DecodeError::TruncatedInput);
        }
        let (username, p) = LuWStr33::deserialize(buf, pos)?;
        let (session_key, p) = LuWStr33::deserialize(buf, p)?;
        let mut fdb_checksum = [0u8; 32];
        let mut i: usize = 0;
        while i < 32
            invariant
                i <= 32,
                p == pos + 132,
                pos + 165 <= buf@.len() <= usize::MAX,
                fdb_checksum@.len() == 32,
                forall|j: int| 0 <= j < i ==> #[trigger] fdb_checksum@[j] == buf@[p + j],
            decreases 32 - i,
        {
            fdb_checksum[i] = buf[p + i];
            i = i + 1;
        }
        let p = skip(buf, p + 32, 1)?;
        let ghost sub = buf@.subrange(pos as int, pos + 165);
        assert(sub.subrange(0, 66) =~= buf@.subrange(pos as int, pos + 66));
        assert(sub.subrange(66, 132) =~= buf@.subrange(pos + 66, pos + 132));
        assert(fdb_checksum@ =~= sub.subrange(132, 164));
        Ok((ClientValidation { username, session_key, fdb_checksum }, p))
    }

    /// Decoding the encoding of a valid message gives that message back.
    pub proof fn lemma_round_trip(m: ClientValidation)
        requires
            m.wf(),
        ensures
            Self::decodes(m.wire(), m),
    {
        LuWStr33::lemma_round_trip(m.username);
        LuWStr33::lemma_round_trip(m.session_key);
        let w = m.wire();
        assert(w.subrange(0, 66) =~= m.username.wire());
        assert(w.subrange(66, 132) =~= m.session_key.wire());
        assert(w.subrange(132, 164) =~= m.fdb_checksum@);
    }

    /// The encoding ends in exactly one filler byte after the checksum, and
    /// that byte is zero whatever the fields hold.
    pub proof fn lemma_filler_byte(m: ClientValidation)
        requires
            m.wf(),
        ensures
            m.wire().len() == 165,
            m.wire()[164] == 0,
            m.wire().subrange(132, 164) == m.fdb_checksum@,
    {
        assert(m.wire().subrange(132, 164) =~= m.fdb_checksum@);
    }
}

} // verus!

verus! {

/// A request to create a character with the given name and looks.
#[derive(Debug)]
pub struct CharacterCreateRequest {
    pub char_name: LuWStr33,
    pub predef_name_ids: (u32, u32, u32),
    pub shirt_color: u32,
    pub pants_color: u32,
    pub hair_style: u32,
    pub hair_color: u32,
    pub eyebrow_style: u32,
    pub eye_style: u32,
    pub mouth_style: u32,
}

impl CharacterCreateRequest {
    pub open spec fn wf(&self) -> bool {
        self.char_name.wf()
    }

    /// The unused fields between the real ones are written as zeros.
    pub open spec fn wire(&self) -> Seq<u8> {
        self.char_name.wire() + u32_le(self.predef_name_ids.0) + u32_le(self.predef_name_ids.1)
            + u32_le(self.predef_name_ids.2) + zeros(9) + u32_le(self.shirt_color) + zeros(4)
            + u32_le(self.pants_color) + u32_le(self.hair_style) + u32_le(self.hair_color) + zeros(8)
            + u32_le(self.eyebrow_style) + u32_le(self.eye_style) + u32_le(self.mouth_style) + zeros(1)
    }

    pub open spec fn decodes(s: Seq<u8>, v: CharacterCreateRequest) -> bool {
        &&& s.len() == 128
        &&& LuWStr33::decodes(s.subrange(0, 66), v.char_name)
        &&& v.predef_name_ids == (le32_at(s, 66), le32_at(s, 70), le32_at(s, 74))
        &&& v.shirt_color == le32_at(s, 87)
        &&& v.pants_color == le32_at(s, 95)
        &&& v.hair_style == le32_at(s, 99)
        &&& v.hair_color == le32_at(s, 103)
        &&& v.eyebrow_style == le32_at(s, 115)
        &&& v.eye_style == le32_at(s, 119)
        &&& v.mouth_style == le32_at(s, 123)
    }

    pub fn serialize(&self, out: &mut Vec<u8>)
        requires
            self.wf(),
        ensures
            final(out)@ == old(out)@ + self.wire(),
    {
        let ghost start = out@;
        self.char_name.serialize(out);
        write_u32(out, self.predef_name_ids.0);
        write_u32(out, self.predef_name_ids.1);
        write_u32(out, self.predef_name_ids.2);
        write_padding(out, 9);
        write_u32(out, self.shirt_color);
        write_padding(out, 4);
        write_u32(out, self.pants_color);
        write_u32(out, self.hair_style);
        write_u32(out, self.hair_color);
        write_padding(out, 8);
        write_u32(out, self.eyebrow_style);
        write_u32(out, self.eye_style);
        write_u32(out, self.mouth_style);
        write_padding(out, 1);
        assert(final(out)@ =~= start + self.wire());
    }

    pub fn deserialize(buf: &[u8], pos: usize) -> (r: Result<(CharacterCreateRequest, usize), DecodeError>)
        requires
            pos <= buf@.len(),
        ensures
            r is Ok <==> remaining(buf@, pos as int) >= 128,
            r is Err ==> r->Err_0 == DecodeError::TruncatedInput,
            r is Ok ==> r->Ok_0.1 == pos + 128 && Self::decodes(buf@.subrange(pos as int, pos + 128), r->Ok_0.0),
    {
        if !has_bytes(buf, pos, 128) {
            return Err(DecodeError::TruncatedInput);
        }
        let (char_name, p) = LuWStr33::deserialize(buf, pos)?;
        let (name_id_1, p) = read_u32(buf, p)?;
        let (name_id_2, p) = read_u32(buf, p)?;
        let (name_id_3, p) = read_u32(buf, p)?;
        let p = skip(buf, p, 9)?;
        let (shirt_color, p) = read_u32(buf, p)?;
        let p = skip(buf, p, 4)?;
        let (pants_color, p) = read_u32(buf, p)?;
        let (hair_style, p) = read_u32(buf, p)?;
        let (hair_color, p) = read_u32(buf, p)?;
        let p = skip(buf, p, 8)?;
        let (eyebrow_style, p) = read_u32(buf, p)?;
        let (eye_style, p) = read_u32(buf, p)?;
        let (mouth_style, p) = read_u32(buf, p)?;
        let p = skip(buf, p, 1)?;
        let ghost sub = buf@.subrange(pos as int, pos + 128);
        assert(sub.subrange(0, 66) =~= buf@.subrange(pos as int, pos + 66));
        let v = CharacterCreateRequest {
            char_name,
            predef_name_ids: (name_id_1, name_id_2, name_id_3),
            shirt_color,
            pants_color,
            hair_style,
            hair_color,
            eyebrow_style,
            eye_style,
            mouth_style,
        };
        Ok((v, p))
    }

    /// Decoding the encoding of a valid request gives that request back.
    pub proof fn lemma_round_trip(m: CharacterCreateRequest)
        requires
            m.wf(),
        ensures
            Self::decodes(m.wire(), m),
    {
        LuWStr33::lemma_round_trip(m.char_name);
        let w = m.wire();
        assert(w.subrange(0, 66) =~= m.char_name.wire());
        assert(w.subrange(66, 70) =~= u32_le(m.predef_name_ids.0));
        lemma_le32_in(w, 66, m.predef_name_ids.0);
        assert(w.subrange(70, 74) =~= u32_le(m.predef_name_ids.1));
        lemma_le32_in(w, 70, m.predef_name_ids.1);
        assert(w.subrange(74, 78) =~= u32_le(m.predef_name_ids.2));
        lemma_le32_in(w, 74, m.predef_name_ids.2);
        assert(w.subrange(87, 91) =~= u32_le(m.shirt_color));
        lemma_le32_in(w, 87, m.shirt_color);
        assert(w.subrange(95, 99) =~= u32_le(m.pants_color));
        lemma_le32_in(w, 95, m.pants_color);
        assert(w.subrange(99, 103) =~= u32_le(m.hair_style));
        lemma_le32_in(w, 99, m.hair_style);
        assert(w.subrange(103, 107) =~= u32_le(m.hair_color));
        lemma_le32_in(w, 103, m.hair_color);
        assert(w.subrange(115, 119) =~= u32_le(m.eyebrow_style));
        lemma_le32_in(w, 115, m.eyebrow_style);
        assert(w.subrange(119, 123) =~= u32_le(m.eye_style));
        lemma_le32_in(w, 119, m.eye_style);
        assert(w.subrange(123, 127) =~= u32_le(m.mouth_style));
        lemma_le32_in(w, 123, m.mouth_style);
    }

    /// Every unused span of the encoding is zero, whatever the fields hold.
    pub proof fn lemma_padding_zero(m: CharacterCreateRequest)
        requires
            m.wf(),
        ensures
            m.wire().len() == 128,
            m.wire().subrange(78, 87) == zeros(9),
            m.wire().subrange(91, 95) == zeros(4),
            m.wire().subrange(107, 115) == zeros(8),
            m.wire()[127] == 0,
    {
        let w = m.wire();
        assert(w.subrange(78, 87) =~= zeros(9));
        assert(w.subrange(91, 95) =~= zeros(4));
        assert(w.subrange(107, 115) =~= zeros(8));
    }
}

} // verus!

verus! {

#[derive(Debug, Clone, Copy, PartialEq, Eq, Structural)]
pub struct CharacterLoginRequest {
    pub char_id: ObjId,
}

#[derive(Debug, Clone, Copy, PartialEq, Eq, Structural)]
pub struct CharacterDeleteRequest {
    pub char_id: ObjId,
}

/// Sent once the client has finished loading the zone.
#[derive(Debug, Clone, Copy, PartialEq, Eq, Structural)]
pub struct LevelLoadComplete {
    pub zone_id: ZoneId,
}

impl CharacterLoginRequest {
    pub open spec fn wire(&self) -> Seq<u8> {
        u64_le(self.char_id)
    }

    pub open spec fn decodes(s: Seq<u8>, v: CharacterLoginRequest) -> bool {
        s.len() == 8 && v.char_id == le64_at(s, 0)
    }

    pub fn serialize(&self, out: &mut Vec<u8>)
        ensures
            final(out)@ == old(out)@ + self.wire(),
    {
        write_u64(out, self.char_id);
    }

    pub fn deserialize(buf: &[u8], pos: usize) -> (r: Result<(CharacterLoginRequest, usize), DecodeError>)
        requires
            pos <= buf@.len(),
        ensures
            r is Ok <==> remaining(buf@, pos as int) >= 8,
            r is Err ==> r->Err_0 == DecodeError::TruncatedInput,
            r is Ok ==> r->Ok_0.1 == pos + 8 && Self::decodes(buf@.subrange(pos as int, pos + 8), r->Ok_0.0),
    {
        if !has_bytes(buf, pos, 8) {
            return Err(DecodeError::TruncatedInput);
        }
        let (char_id, p) = read_u64(buf, pos)?;
        let ghost sub = buf@.subrange(pos as int, pos + 8);
        assert(le32_at(sub, 0) == le32_at(buf@, pos as int) && le32_at(sub, 4) == le32_at(buf@, pos + 4));
        Ok((CharacterLoginRequest { char_id }, p))
    }

    /// Decoding the encoding of a request gives that request back.
    pub proof fn lemma_round_trip(m: CharacterLoginRequest)
        ensures
            Self::decodes(m.wire(), m),
    {
        lemma_u64_round_trip(m.char_id);
    }
}

impl CharacterDeleteRequest {
    pub open spec fn wire(&self) -> Seq<u8> {
        u64_le(self.char_id)
    }

    pub open spec fn decodes(s: Seq<u8>, v: CharacterDeleteRequest) -> bool {
        s.len() == 8 && v.char_id == le64_at(s, 0)
    }

    pub fn serialize(&self, out: &mut Vec<u8>)
        ensures
            final(out)@ == old(out)@ + self.wire(),
    {
        write_u64(out, self.char_id);
    }

    pub fn deserialize(buf: &[u8], pos: usize) -> (r: Result<(CharacterDeleteRequest, usize), DecodeError>)
        requires
            pos <= buf@.len(),
        ensures
            r is Ok <==> remaining(buf@, pos as int) >= 8,
            r is Err ==> r->Err_0 == DecodeError::TruncatedInput,
            r is Ok ==> r->Ok_0.1 == pos + 8 && Self::decodes(buf@.subrange(pos as int, pos + 8), r->Ok_0.0),
    {
        if !has_bytes(buf, pos, 8) {
            return Err(DecodeError::TruncatedInput);
        }
        let (char_id, p) = read_u64(buf, pos)?;
        let ghost sub = buf@.subrange(pos as int, pos + 8);
        assert(le32_at(sub, 0) == le32_at(buf@, pos as int) && le32_at(sub, 4) == le32_at(buf@, pos + 4));
        Ok((CharacterDeleteRequest { char_id }, p))
    }

    /// Decoding the encoding of a request gives that request back.
    pub proof fn lemma_round_trip(m: CharacterDeleteRequest)
        ensures
            Self::decodes(m.wire(), m),
    {
        lemma_u64_round_trip(m.char_id);
    }
}

impl LevelLoadComplete {
    pub open spec fn wire(&self) -> Seq<u8> {
        self.zone_id.wire()
    }

    pub open spec fn decodes(s: Seq<u8>, v: LevelLoadComplete) -> bool {
        ZoneId::decodes(s, v.zone_id)
    }

    pub fn serialize(&self, out: &mut Vec<u8>)
        ensures
            final(out)@ == old(out)@ + self.wire(),
    {
        self.zone_id.serialize(out);
    }

    pub fn deserialize(buf: &[u8], pos: usize) -> (r: Result<(LevelLoadComplete, usize), DecodeError>)
        requires
            pos <= buf@.len(),
        ensures
            r is Ok <==> remaining(buf@, pos as int) >= 8,
            r is Err ==> r->Err_0 == DecodeError::TruncatedInput,
            r is Ok ==> r->Ok_0.1 == pos + 8 && Self::decodes(buf@.subrange(pos as int, pos + 8), r->Ok_0.0),
    {
        let (zone_id, p) = ZoneId::deserialize(buf, pos)?;
        Ok((LevelLoadComplete { zone_id }, p))
    }

    /// Decoding the encoding of a message gives that message back.
    pub proof fn lemma_round_trip(m: LevelLoadComplete)
        ensures
            Self::decodes(m.wire(), m),
    {
        ZoneId::lemma_round_trip(m.zone_id);
    }
}

/// A chat line. The length prefix counts the terminator, which follows the
/// text on the wire and is not part of `message`.
#[derive(Debug, Clone)]
pub struct GeneralChatMessage {
    pub chat_channel: u8,
    pub source_id: u16,
    /// The text as 16-bit code units.
    pub message: Vec<u16>,
}

impl GeneralChatMessage {
    pub open spec fn wf(&self) -> bool {
        self.message@.len() < u32::MAX
    }

    /// Channel, source, the length counting the terminator, the text, and a
    /// zero terminator.
    pub open spec fn wire(&self) -> Seq<u8> {
        u8_le(self.chat_channel) + u16_le(self.source_id) + u32_le((self.message@.len() + 1) as u32)
            + wide_le(self.message@) + u16_le(0)
    }

    /// Why the bytes `s` that follow the decoder's position cannot start a
    /// message; `None` where they can.
    pub open spec fn rejects(s: Seq<u8>) -> Option<DecodeError> {
        if s.len() < 7 {
            Some(DecodeError::TruncatedInput)
        } else if le32_at(s, 3) == 0 {
            Some(DecodeError::LengthInconsistency)
        } else if s.len() < 7 + 2 * le32_at(s, 3) {
            Some(DecodeError::LengthInconsistency)
        } else {
            None
        }
    }

    /// The unit before the end, the terminator, is read and dropped.
    pub open spec fn decodes(s: Seq<u8>, v: GeneralChatMessage) -> bool {
        &&& s.len() >= 7
        &&& v.chat_channel == s[0]
        &&& v.source_id == le16_at(s, 1)
        &&& le32_at(s, 3) >= 1
        &&& s.len() == 7 + 2 * le32_at(s, 3)
        &&& wide_units_dec(s.subrange(7, s.len() - 2), v.message@)
    }

    pub fn serialize(&self, out: &mut Vec<u8>)
        requires
            self.wf(),
        ensures
            final(out)@ == old(out)@ + self.wire(),
    {
        let ghost start = out@;
        write_u8(out, self.chat_channel);
        write_u16(out, self.source_id);
        write_u32(out, (self.message.len() + 1) as u32);
        write_wide_units(out, self.message.as_slice());
        write_u16(out, 0);
        assert(final(out)@ =~= start + self.wire());
    }

    pub fn deserialize(buf: &[u8], pos: usize) -> (r: Result<(GeneralChatMessage, usize), DecodeError>)
        requires
            pos <= buf@.len(),
        ensures
            r is Err <==> Self::rejects(buf@.subrange(pos as int, buf@.len() as int)) is Some,
            r is Err ==> Self::rejects(buf@.subrange(pos as int, buf@.len() as int)) == Some(r->Err_0),
            r is Ok ==> pos + 7 <= r->Ok_0.1 <= buf@.len() && Self::decodes(buf@.subrange(pos as int, r->Ok_0.1 as int), r->Ok_0.0),
    {
        let ghost rest = buf@.subrange(pos as int, buf@.len() as int);
        if !has_bytes(buf, pos, 7) {
            return Err(DecodeError::TruncatedInput);
        }
        let (chat_channel, p) = read_u8(buf, pos)?;
        let (source_id, p) = read_u16(buf, p)?;
        let (string_len, p) = read_u32(buf, p)?;
        assert(string_len == le32_at(rest, 3));
        if string_len == 0 {
            return Err(DecodeError::LengthInconsistency);
        }
        if (buf.len() - p) / 2 < string_len as usize {
            return Err(DecodeError::LengthInconsistency);
        }
        let (message, q) = read_wide_units(buf, p, (string_len - 1) as usize)?;
        let q = skip(buf, q, 2)?;
        let ghost sub = buf@.subrange(pos as int, q as int);
        assert(sub.subrange(7, sub.len() - 2) =~= buf@.subrange(p as int, p + 2 * (string_len - 1)));
        Ok((GeneralChatMessage { chat_channel, source_id, message }, q))
    }

    /// The text of the message; ill-formed code units become U+FFFD.
    pub fn message_text(&self) -> (r: String)
        ensures
            r@ == utf16_lossy(self.message@),
    {
        lossy_text(self.message.as_slice())
    }

    /// The length prefix counts the text and its terminator.
    pub proof fn lemma_length_counts_terminator(m: GeneralChatMessage)
        requires
            m.wf(),
        ensures
            le32_at(m.wire(), 3) == m.message@.len() + 1,
            m.wire().len() == 7 + 2 * (m.message@.len() + 1),
    {
        let w = m.wire();
        let n = (m.message@.len() + 1) as u32;
        assert(w.subrange(3, 7) =~= u32_le(n));
        lemma_le32_in(w, 3, n);
    }

    /// Decoding the encoding of a valid message gives that message back.
    pub proof fn lemma_round_trip(m: GeneralChatMessage)
        requires
            m.wf(),
        ensures
            Self::decodes(m.wire(), m),
            Self::rejects(m.wire()) is None,
    {
        let w = m.wire();
        let n = (m.message@.len() + 1) as u32;
        lemma_wide_units_round_trip(m.message@);
        assert(w.subrange(1, 3) =~= u16_le(m.source_id));
        lemma_le16_in(w, 1, m.source_id);
        assert(w.subrange(3, 7) =~= u32_le(n));
        lemma_le32_in(w, 3, n);
        assert(w.subrange(7, w.len() - 2) =~= wide_le(m.message@));
    }
}

/// A text to be checked by the chat filter before it is sent to a recipient.
/// The length prefix counts the text alone.
#[derive(Debug, Clone)]
pub struct StringCheck {
    pub chat_mode: u8,
    pub chat_channel: u8,
    pub recipient_name: LuWStr42,
    /// The text as 16-bit code units.
    pub string: Vec<u16>,
}

impl StringCheck {
    pub open spec fn wf(&self) -> bool {
        self.recipient_name.wf() && self.string@.len() <= u16::MAX
    }

    pub open spec fn wire(&self) -> Seq<u8> {
        u8_le(self.chat_mode) + u8_le(self.chat_channel) + self.recipient_name.wire()
            + u16_le(self.string@.len() as u16) + wide_le(self.string@)
    }

    /// Why the bytes `s` that follow the decoder's position cannot start a
    /// message; `None` where they can.
    pub open spec fn rejects(s: Seq<u8>) -> Option<DecodeError> {
        if s.len() < 88 {
            Some(DecodeError::TruncatedInput)
        } else if s.len() < 88 + 2 * le16_at(s, 86) {
            Some(DecodeError::LengthInconsistency)
        } else {
            None
        }
    }

    pub open spec fn decodes(s: Seq<u8>, v: StringCheck) -> bool {
        &&& s.len() >= 88
        &&& v.chat_mode == s[0]
        &&& v.chat_channel == s[1]
        &&& LuWStr42::decodes(s.subrange(2, 86), v.recipient_name)
        &&& s.len() == 88 + 2 * le16_at(s, 86)
        &&& wide_units_dec(s.subrange(88, s.len() as int), v.string@)
    }

    pub fn serialize(&self, out: &mut Vec<u8>)
        requires
            self.wf(),
        ensures
            final(out)@ == old(out)@ + self.wire(),
    {
        let ghost start = out@;
        write_u8(out, self.chat_mode);
        write_u8(out, self.chat_channel);
        self.recipient_name.serialize(out);
        write_u16(out, self.string.len() as u16);
        write_wide_units(out, self.string.as_slice());
        assert(final(out)@ =~= start + self.wire());
    }

    pub fn deserialize(buf: &[u8], pos: usize) -> (r: Result<(StringCheck, usize), DecodeError>)
        requires
            pos <= buf@.len(),
        ensures
            r is Err <==> Self::rejects(buf@.subrange(pos as int, buf@.len() as int)) is Some,
            r is Err ==> Self::rejects(buf@.subrange(pos as int, buf@.len() as int)) == Some(r->Err_0),
            r is Ok ==> pos + 88 <= r->Ok_0.1 <= buf@.len() && Self::decodes(buf@.subrange(pos as int, r->Ok_0.1 as int), r->Ok_0.0),
    {
        let ghost rest = buf@.subrange(pos as int, buf@.len() as int);
        if !has_bytes(buf, pos, 88) {
            return Err(DecodeError::TruncatedInput);
        }
        let (chat_mode, p) = read_u8(buf, pos)?;
        let (chat_channel, p) = read_u8(buf, p)?;
        let (recipient_name, p) = LuWStr42::deserialize(buf, p)?;
        let (string_len, p) = read_u16(buf, p)?;
        assert(string_len == le16_at(rest, 86));
        if (buf.len() - p) / 2 < string_len as usize {
            return Err(DecodeError::LengthInconsistency);
        }
        let (string, q) = read_wide_units(buf, p, string_len as usize)?;
        let ghost sub = buf@.subrange(pos as int, q as int);
        assert(sub.subrange(2, 86) =~= buf@.subrange(pos + 2, pos + 86));
        assert(sub.subrange(88, sub.len() as int) =~= buf@.subrange(p as int, q as int));
        Ok((StringCheck { chat_mode, chat_channel, recipient_name, string }, q))
    }

    /// The text to be checked; ill-formed code units become U+FFFD.
    pub fn string_text(&self) -> (r: String)
        ensures
            r@ == utf16_lossy(self.string@),
    {
        lossy_text(self.string.as_slice())
    }

    /// The length prefix counts the text alone.
    pub proof fn lemma_length_counts_text(m: StringCheck)
        requires
            m.wf(),
        ensures
            le16_at(m.wire(), 86) == m.string@.len(),
            m.wire().len() == 88 + 2 * m.string@.len(),
    {
        let w = m.wire();
        let n = m.string@.len() as u16;
        assert(w.subrange(86, 88) =~= u16_le(n));
        lemma_le16_in(w, 86, n);
    }

    /// Decoding the encoding of a valid message gives that message back.
    pub proof fn lemma_round_trip(m: StringCheck)
        requires
            m.wf(),
        ensures
            Self::decodes(m.wire(), m),
            Self::rejects(m.wire()) is None,
    {
        let w = m.wire();
        let n = m.string@.len() as u16;
        LuWStr42::lemma_round_trip(m.recipient_name);
        lemma_wide_units_round_trip(m.string@);
        assert(w.subrange(2, 86) =~= m.recipient_name.wire());
        assert(w.subrange(86, 88) =~= u16_le(n));
        lemma_le16_in(w, 86, n);
        assert(w.subrange(88, w.len() as int) =~= wide_le(m.string@));
    }
}

} // verus!

verus! {

/// Service id of the chat server, the one service a routed message may name.
pub const SERVICE_CHAT: u16 = 2;

/// Kind of user-made resource, a closed 32-bit union with no payload.
#[derive(Debug, Clone, Copy, PartialEq, Eq, Structural)]
pub enum UgcResType {
    Lxfml,
    Nif,
    Hkx,
    Dds,
}

impl UgcResType {
    pub open spec fn tag(&self) -> u32 {
        match self {
            UgcResType::Lxfml => 0,
            UgcResType::Nif => 1,
            UgcResType::Hkx => 2,
            UgcResType::Dds => 3,
        }
    }

    pub open spec fn from_tag(t: u32) -> Option<UgcResType> {
        if t == 0 {
            Some(UgcResType::Lxfml)
        } else if t == 1 {
            Some(UgcResType::Nif)
        } else if t == 2 {
            Some(UgcResType::Hkx)
        } else if t == 3 {
            Some(UgcResType::Dds)
        } else {
            None
        }
    }

    pub open spec fn wire(&self) -> Seq<u8> {
        u32_le(self.tag())
    }

    pub fn serialize(&self, out: &mut Vec<u8>)
        ensures
            final(out)@ == old(out)@ + self.wire(),
    {
        let t: u32 = match self {
            UgcResType::Lxfml => 0,
            UgcResType::Nif => 1,
            UgcResType::Hkx => 2,
            UgcResType::Dds => 3,
        };
        write_u32(out, t);
    }

    pub fn deserialize(buf: &[u8], pos: usize) -> (r: Result<(UgcResType, usize), DecodeError>)
        requires
            pos <= buf@.len(),
        ensures
            remaining(buf@, pos as int) < 4 ==> r == Err::<(UgcResType, usize), DecodeError>(DecodeError::TruncatedInput),
            remaining(buf@, pos as int) >= 4 ==> match Self::from_tag(le32_at(buf@, pos as int)) {
                Some(v) => r == Ok::<(UgcResType, usize), DecodeError>((v, (pos + 4) as usize)),
                None => r == Err::<(UgcResType, usize), DecodeError>(DecodeError::UnknownDiscriminant),
            },
    {
        let (t, p) = read_u32(buf, pos)?;
        if t == 0 {
            Ok((UgcResType::Lxfml, p))
        } else if t == 1 {
            Ok((UgcResType::Nif, p))
        } else if t == 2 {
            Ok((UgcResType::Hkx, p))
        } else if t == 3 {
            Ok((UgcResType::Dds, p))
        } else {
            Err(DecodeError::UnknownDiscriminant)
        }
    }

    /// Every variant is written with its own tag and read back from it.
    pub proof fn lemma_round_trip(m: UgcResType)
        ensures
            le32_at(m.wire(), 0) == m.tag(),
            Self::from_tag(m.tag()) == Some(m),
    {
        assert(m.wire().subrange(0, 4) =~= u32_le(m.tag()));
        lemma_le32_in(m.wire(), 0, m.tag());
    }
}

/// A client reports that it could not download a user-made resource.
#[derive(Debug, Clone, Copy, PartialEq, Eq, Structural)]
pub struct UgcDownloadFailed {
    pub res_type: UgcResType,
    pub blueprint_id: ObjId,
    pub status_code: u32,
    pub char_id: ObjId,
}

impl UgcDownloadFailed {
    pub open spec fn wire(&self) -> Seq<u8> {
        self.res_type.wire() + u64_le(self.blueprint_id) + u32_le(self.status_code) + u64_le(self.char_id)
    }

    pub open spec fn rejects(s: Seq<u8>) -> Option<DecodeError> {
        if s.len() < 24 {
            Some(DecodeError::TruncatedInput)
        } else if UgcResType::from_tag(le32_at(s, 0)) is None {
            Some(DecodeError::UnknownDiscriminant)
        } else {
            None
        }
    }

    pub open spec fn decodes(s: Seq<u8>, v: UgcDownloadFailed) -> bool {
        &&& s.len() == 24
        &&& UgcResType::from_tag(le32_at(s, 0)) == Some(v.res_type)
        &&& v.blueprint_id == le64_at(s, 4)
        &&& v.status_code == le32_at(s, 12)
        &&& v.char_id == le64_at(s, 16)
    }

    pub fn serialize(&self, out: &mut Vec<u8>)
        ensures
            final(out)@ == old(out)@ + self.wire(),
    {
        let ghost start = out@;
        self.res_type.serialize(out);
        write_u64(out, self.blueprint_id);
        write_u32(out, self.status_code);
        write_u64(out, self.char_id);
        assert(final(out)@ =~= start + self.wire());
    }

    pub fn deserialize(buf: &[u8], pos: usize) -> (r: Result<(UgcDownloadFailed, usize), DecodeError>)
        requires
            pos <= buf@.len(),
        ensures
            r is Err <==> Self::rejects(buf@.subrange(pos as int, buf@.len() as int)) is Some,
            r is Err ==> Self::rejects(buf@.subrange(pos as int, buf@.len() as int)) == Some(r->Err_0),
            r is Ok ==> r->Ok_0.1 == pos + 24 && Self::decodes(buf@.subrange(pos as int, pos + 24), r->Ok_0.0),
    {
        let ghost rest = buf@.subrange(pos as int, buf@.len() as int);
        if !has_bytes(buf, pos, 24) {
            return Err(DecodeError::TruncatedInput);
        }
        assert(le32_at(rest, 0) == le32_at(buf@, pos as int));
        let (res_type, p) = UgcResType::deserialize(buf, pos)?;
        let (blueprint_id, p) = read_u64(buf, p)?;
        let (status_code, p) = read_u32(buf, p)?;
        let (char_id, p) = read_u64(buf, p)?;
        let ghost sub = buf@.subrange(pos as int, pos + 24);
        assert(le32_at(sub, 0) == le32_at(buf@, pos as int));
        assert(le32_at(sub, 4) == le32_at(buf@, pos + 4) && le32_at(sub, 8) == le32_at(buf@, pos + 8));
        assert(le32_at(sub, 16) == le32_at(buf@, pos + 16) && le32_at(sub, 20) == le32_at(buf@, pos + 20));
        Ok((UgcDownloadFailed { res_type, blueprint_id, status_code, char_id }, p))
    }

    /// Decoding the encoding of a message gives that message back.
    pub proof fn lemma_round_trip(m: UgcDownloadFailed)
        ensures
            Self::decodes(m.wire(), m),
            Self::rejects(m.wire()) is None,
    {
        let w = m.wire();
        UgcResType::lemma_round_trip(m.res_type);
        assert(w.subrange(0, 4) =~= u32_le(m.res_type.tag()));
        lemma_le32_in(w, 0, m.res_type.tag());
        assert(w.subrange(4, 12) =~= u64_le(m.blueprint_id));
        lemma_le64_in(w, 4, m.blueprint_id);
        assert(w.subrange(12, 16) =~= u32_le(m.status_code));
        lemma_le32_in(w, 12, m.status_code);
        assert(w.subrange(16, 24) =~= u64_le(m.char_id));
        lemma_le64_in(w, 16, m.char_id);
    }
}

/// A message to be passed on to another service. Only the chat service is
/// known; its message is carried as the raw bytes to the end of the frame.
#[derive(Debug, Clone)]
pub enum RouteMessage {
    Chat(Vec<u8>),
}

impl RouteMessage {
    /// A placeholder size of zero, the service id, and the inner message.
    pub open spec fn wire(&self) -> Seq<u8> {
        match self {
            RouteMessage::Chat(d) => u32_le(0) + u16_le(SERVICE_CHAT) + d@,
        }
    }

    /// The outer size field is never trusted, so only the service id can
    /// make a frame unreadable.
    pub open spec fn rejects(s: Seq<u8>) -> Option<DecodeError> {
        if s.len() < 6 {
            Some(DecodeError::TruncatedInput)
        } else if le16_at(s, 4) != SERVICE_CHAT {
            Some(DecodeError::UnknownDiscriminant)
        } else {
            None
        }
    }

    pub open spec fn decodes(s: Seq<u8>, v: RouteMessage) -> bool {
        &&& s.len() >= 6
        &&& le16_at(s, 4) == SERVICE_CHAT
        &&& match v {
            RouteMessage::Chat(d) => d@ == s.subrange(6, s.len() as int),
        }
    }

    pub fn serialize(&self, out: &mut Vec<u8>)
        ensures
            final(out)@ == old(out)@ + self.wire(),
    {
        let ghost start = out@;
        match self {
            RouteMessage::Chat(d) => {
                write_u32(out, 0);
                write_u16(out, SERVICE_CHAT);
                write_bytes(out, d.as_slice());
            },
        }
        assert(final(out)@ =~= start + self.wire());
    }

    pub fn deserialize(buf: &[u8], pos: usize) -> (r: Result<(RouteMessage, usize), DecodeError>)
        requires
            pos <= buf@.len(),
        ensures
            r is Err <==> Self::rejects(buf@.subrange(pos as int, buf@.len() as int)) is Some,
            r is Err ==> Self::rejects(buf@.subrange(pos as int, buf@.len() as int)) == Some(r->Err_0),
            r is Ok ==> r->Ok_0.1 == buf@.len() && Self::decodes(buf@.subrange(pos as int, buf@.len() as int), r->Ok_0.0),
    {
        let ghost rest = buf@.subrange(pos as int, buf@.len() as int);
        if !has_bytes(buf, pos, 6) {
            return Err(DecodeError::TruncatedInput);
        }
        let p = skip(buf, pos, 4)?;
        let (service_id, p) = read_u16(buf, p)?;
        assert(service_id == le16_at(rest, 4));
        if service_id != SERVICE_CHAT {
            return Err(DecodeError::UnknownDiscriminant);
        }
        let (data, q) = read_rest(buf, p);
        assert(rest.subrange(6, rest.len() as int) =~= buf@.subrange(p as int, buf@.len() as int));
        Ok((RouteMessage::Chat(data), q))
    }

    /// Decoding the encoding of a routed message gives that message back.
    pub proof fn lemma_round_trip(m: RouteMessage)
        ensures
            Self::decodes(m.wire(), m),
            Self::rejects(m.wire()) is None,
    {
        let w = m.wire();
        assert(w.subrange(4, 6) =~= u16_le(SERVICE_CHAT));
        lemma_le16_in(w, 4, SERVICE_CHAT);
        match m {
            RouteMessage::Chat(d) => {
                assert(w.subrange(6, w.len() as int) =~= d@);
            },
        }
    }
}

} // verus!

verus! {

/// Why `p`, the bytes after a world message's tag and padding, cannot hold
/// the payload of tag `t`; `None` where they can.
pub open spec fn world_payload_rejects(t: u32, p: Seq<u8>) -> Option<DecodeError> {
    let short = |n: int| if p.len() < n { Some(DecodeError::TruncatedInput) } else { None };
    if t == 1 {
        short(165)
    } else if t == 3 {
        short(128)
    } else if t == 4 || t == 6 || t == 19 {
        short(8)
    } else if t == 14 {
        GeneralChatMessage::rejects(p)
    } else if t == 21 {
        RouteMessage::rejects(p)
    } else if t == 25 {
        StringCheck::rejects(p)
    } else if t == 120 {
        UgcDownloadFailed::rejects(p)
    } else {
        None
    }
}

/// The closed set of world messages a server receives: a 32-bit tag, one
/// padding byte, then the payload.
#[derive(Debug)]
pub enum WorldMessage {
    ClientValidation(ClientValidation),
    CharacterListRequest,
    CharacterCreateRequest(CharacterCreateRequest),
    CharacterLoginRequest(CharacterLoginRequest),
    /// A game message for one object, carried as raw bytes to the end of the frame.
    SubjectGameMessage(Vec<u8>),
    CharacterDeleteRequest(CharacterDeleteRequest),
    GeneralChatMessage(GeneralChatMessage),
    LevelLoadComplete(LevelLoadComplete),
    RouteMessage(RouteMessage),
    StringCheck(StringCheck),
    RequestFreeTrialRefresh,
    UgcDownloadFailed(UgcDownloadFailed),
}

impl WorldMessage {
    pub open spec fn tag(&self) -> u32 {
        match self {
            WorldMessage::ClientValidation(_) => 1,
            WorldMessage::CharacterListRequest => 2,
            WorldMessage::CharacterCreateRequest(_) => 3,
            WorldMessage::CharacterLoginRequest(_) => 4,
            WorldMessage::SubjectGameMessage(_) => 5,
            WorldMessage::CharacterDeleteRequest(_) => 6,
            WorldMessage::GeneralChatMessage(_) => 14,
            WorldMessage::LevelLoadComplete(_) => 19,
            WorldMessage::RouteMessage(_) => 21,
            WorldMessage::StringCheck(_) => 25,
            WorldMessage::RequestFreeTrialRefresh => 32,
            WorldMessage::UgcDownloadFailed(_) => 120,
        }
    }

    pub open spec fn is_known_tag(t: u32) -> bool {
        t == 1 || t == 2 || t == 3 || t == 4 || t == 5 || t == 6 || t == 14 || t == 19 || t == 21
            || t == 25 || t == 32 || t == 120
    }

    pub open spec fn wf(&self) -> bool {
        match self {
            WorldMessage::ClientValidation(m) => m.wf(),
            WorldMessage::CharacterCreateRequest(m) => m.wf(),
            WorldMessage::GeneralChatMessage(m) => m.wf(),
            WorldMessage::StringCheck(m) => m.wf(),
            _ => true,
        }
    }

    pub open spec fn payload_wire(&self) -> Seq<u8> {
        match self {
            WorldMessage::ClientValidation(m) => m.wire(),
            WorldMessage::CharacterListRequest => Seq::empty(),
            WorldMessage::CharacterCreateRequest(m) => m.wire(),
            WorldMessage::CharacterLoginRequest(m) => m.wire(),
            WorldMessage::SubjectGameMessage(d) => d@,
            WorldMessage::CharacterDeleteRequest(m) => m.wire(),
            WorldMessage::GeneralChatMessage(m) => m.wire(),
            WorldMessage::LevelLoadComplete(m) => m.wire(),
            WorldMessage::RouteMessage(m) => m.wire(),
            WorldMessage::StringCheck(m) => m.wire(),
            WorldMessage::RequestFreeTrialRefresh => Seq::empty(),
            WorldMessage::UgcDownloadFailed(m) => m.wire(),
        }
    }

    /// Tag, one zero padding byte, payload.
    pub open spec fn wire(&self) -> Seq<u8> {
        u32_le(self.tag()) + zeros(1) + self.payload_wire()
    }

    pub open spec fn payload_decodes(p: Seq<u8>, v: WorldMessage) -> bool {
        match v {
            WorldMessage::ClientValidation(m) => ClientValidation::decodes(p, m),
            WorldMessage::CharacterListRequest => p.len() == 0,
            WorldMessage::CharacterCreateRequest(m) => CharacterCreateRequest::decodes(p, m),
            WorldMessage::CharacterLoginRequest(m) => CharacterLoginRequest::decodes(p, m),
            WorldMessage::SubjectGameMessage(d) => d@ == p,
            WorldMessage::CharacterDeleteRequest(m) => CharacterDeleteRequest::decodes(p, m),
            WorldMessage::GeneralChatMessage(m) => GeneralChatMessage::decodes(p, m),
            WorldMessage::LevelLoadComplete(m) => LevelLoadComplete::decodes(p, m),
            WorldMessage::RouteMessage(m) => RouteMessage::decodes(p, m),
            WorldMessage::StringCheck(m) => StringCheck::decodes(p, m),
            WorldMessage::RequestFreeTrialRefresh => p.len() == 0,
            WorldMessage::UgcDownloadFailed(m) => UgcDownloadFailed::decodes(p, m),
        }
    }

    /// The padding byte after the tag is read and ignored.
    pub open spec fn decodes(s: Seq<u8>, v: WorldMessage) -> bool {
        &&& s.len() >= 5
        &&& le32_at(s, 0) == v.tag()
        &&& Self::payload_decodes(s.subrange(5, s.len() as int), v)
    }

    /// An unknown tag is refused as soon as it is read, whatever follows it.
    pub open spec fn rejects(s: Seq<u8>) -> Option<DecodeError> {
        if s.len() < 4 {
            Some(DecodeError::TruncatedInput)
        } else if !Self::is_known_tag(le32_at(s, 0)) {
            Some(DecodeError::UnknownDiscriminant)
        } else if s.len() < 5 {
            Some(DecodeError::TruncatedInput)
        } else {
            world_payload_rejects(le32_at(s, 0), s.subrange(5, s.len() as int))
        }
    }

    pub fn serialize(&self, out: &mut Vec<u8>)
        requires
            self.wf(),
        ensures
            final(out)@ == old(out)@ + self.wire(),
    {
        let ghost start = out@;
        match self {
            WorldMessage::ClientValidation(m) => {
                write_u32(out, 1);
                write_padding(out, 1);
                m.serialize(out);
            },
            WorldMessage::CharacterListRequest => {
                write_u32(out, 2);
                write_padding(out, 1);
            },
            WorldMessage::CharacterCreateRequest(m) => {
                write_u32(out, 3);
                write_padding(out, 1);
                m.serialize(out);
            },
            WorldMessage::CharacterLoginRequest(m) => {
                write_u32(out, 4);
                write_padding(out, 1);
                m.serialize(out);
            },
            WorldMessage::SubjectGameMessage(d) => {
                write_u32(out, 5);
                write_padding(out, 1);
                write_bytes(out, d.as_slice());
            },
            WorldMessage::CharacterDeleteRequest(m) => {
                write_u32(out, 6);
                write_padding(out, 1);
                m.serialize(out);
            },
            WorldMessage::GeneralChatMessage(m) => {
                write_u32(out, 14);
                write_padding(out, 1);
                m.serialize(out);
            },
            WorldMessage::LevelLoadComplete(m) => {
                write_u32(out, 19);
                write_padding(out, 1);
                m.serialize(out);
            },
            WorldMessage::RouteMessage(m) => {
                write_u32(out, 21);
                write_padding(out, 1);
                m.serialize(out);
            },
            WorldMessage::StringCheck(m) => {
                write_u32(out, 25);
                write_padding(out, 1);
                m.serialize(out);
            },
            WorldMessage::RequestFreeTrialRefresh => {
                write_u32(out, 32);
                write_padding(out, 1);
            },
            WorldMessage::UgcDownloadFailed(m) => {
                write_u32(out, 120);
                write_padding(out, 1);
                m.serialize(out);
            },
        }
        assert(final(out)@ =~= start + self.wire());
    }

    #[verifier::rlimit(40)]
    pub fn deserialize(buf: &[u8], pos: usize) -> (r: Result<(WorldMessage, usize), DecodeError>)
        requires
            pos <= buf@.len(),
        ensures
            r is Err <==> Self::rejects(buf@.subrange(pos as int, buf@.len() as int)) is Some,
            r is Err ==> Self::rejects(buf@.subrange(pos as int, buf@.len() as int)) == Some(r->Err_0),
            r is Ok ==> pos < r->Ok_0.1 <= buf@.len() && Self::decodes(buf@.subrange(pos as int, r->Ok_0.1 as int), r->Ok_0.0),
    {
        let ghost rest = buf@.subrange(pos as int, buf@.len() as int);
        let (t, p) = read_u32(buf, pos)?;
        assert(t == le32_at(rest, 0));
        if !(t == 1 || t == 2 || t == 3 || t == 4 || t == 5 || t == 6 || t == 14 || t == 19 || t == 21
            || t == 25 || t == 32 || t == 120) {
            return Err(DecodeError::UnknownDiscriminant);
        }
        if !has_bytes(buf, p, 1) {
            return Err(DecodeError::TruncatedInput);
        }
        let p = p + 1;
        let ghost payload = buf@.subrange(p as int, buf@.len() as int);
        assert(rest.subrange(5, rest.len() as int) =~= payload);
        if t == 1 {
            let (m, q) = ClientValidation::deserialize(buf, p)?;
            let v = WorldMessage::ClientValidation(m);
            proof {
                Self::lemma_frame(buf@, pos as int, q as int, v);
            }
            Ok((v, q))
        } else if t == 2 {
            let q = p;
            let v = WorldMessage::CharacterListRequest;
            proof {
                Self::lemma_frame(buf@, pos as int, q as int, v);
            }
            Ok((v, q))
        } else if t == 3 {
            let (m, q) = CharacterCreateRequest::deserialize(buf, p)?;
            let v = WorldMessage::CharacterCreateRequest(m);
            proof {
                Self::lemma_frame(buf@, pos as int, q as int, v);
            }
            Ok((v, q))
        } else if t == 4 {
            let (m, q) = CharacterLoginRequest::deserialize(buf, p)?;
            let v = WorldMessage::CharacterLoginRequest(m);
            proof {
                Self::lemma_frame(buf@, pos as int, q as int, v);
            }
            Ok((v, q))
        } else if t == 5 {
            let (d, q) = read_rest(buf, p);
            let v = WorldMessage::SubjectGameMessage(d);
            proof {
                Self::lemma_frame(buf@, pos as int, q as int, v);
            }
            Ok((v, q))
        } else if t == 6 {
            let (m, q) = CharacterDeleteRequest::deserialize(buf, p)?;
            let v = WorldMessage::CharacterDeleteRequest(m);
            proof {
                Self::lemma_frame(buf@, pos as int, q as int, v);
            }
            Ok((v, q))
        } else if t == 14 {
            let (m, q) = GeneralChatMessage::deserialize(buf, p)?;
            let v = WorldMessage::GeneralChatMessage(m);
            proof {
                Self::lemma_frame(buf@, pos as int, q as int, v);
            }
            Ok((v, q))
        } else if t == 19 {
            let (m, q) = LevelLoadComplete::deserialize(buf, p)?;
            let v = WorldMessage::LevelLoadComplete(m);
            proof {
                Self::lemma_frame(buf@, pos as int, q as int, v);
            }
            Ok((v, q))
        } else if t == 21 {
            let (m, q) = RouteMessage::deserialize(buf, p)?;
            let v = WorldMessage::RouteMessage(m);
            proof {
                Self::lemma_frame(buf@, pos as int, q as int, v);
            }
            Ok((v, q))
        } else if t == 25 {
            let (m, q) = StringCheck::deserialize(buf, p)?;
            let v = WorldMessage::StringCheck(m);
            proof {
                Self::lemma_frame(buf@, pos as int, q as int, v);
            }
            Ok((v, q))
        } else if t == 32 {
            let q = p;
            let v = WorldMessage::RequestFreeTrialRefresh;
            proof {
                Self::lemma_frame(buf@, pos as int, q as int, v);
            }
            Ok((v, q))
        } else {
            let (m, q) = UgcDownloadFailed::deserialize(buf, p)?;
            let v = WorldMessage::UgcDownloadFailed(m);
            proof {
                Self::lemma_frame(buf@, pos as int, q as int, v);
            }
            Ok((v, q))
        }
    }


    proof fn lemma_frame(s: Seq<u8>, pos: int, q: int, v: WorldMessage)
        requires
            0 <= pos,
            pos + 5 <= q <= s.len(),
            le32_at(s, pos) == v.tag(),
            Self::payload_decodes(s.subrange(pos + 5, q), v),
        ensures
            Self::decodes(s.subrange(pos, q), v),
    {
        let sub = s.subrange(pos, q);
        assert(sub.subrange(5, sub.len() as int) =~= s.subrange(pos + 5, q));
    }

    /// A tag outside the closed set is refused on its four bytes alone: two
    /// inputs that share them are refused alike, whatever follows.
    pub proof fn lemma_unknown_tag_rejected(s: Seq<u8>, t: Seq<u8>)
        requires
            s.len() >= 4,
            t.len() >= 4,
            s.subrange(0, 4) == t.subrange(0, 4),
            !Self::is_known_tag(le32_at(s, 0)),
        ensures
            Self::rejects(s) == Some(DecodeError::UnknownDiscriminant),
            Self::rejects(t) == Some(DecodeError::UnknownDiscriminant),
    {
        assert(s[0] == s.subrange(0, 4)[0] && t[0] == t.subrange(0, 4)[0]);
        assert(s[1] == s.subrange(0, 4)[1] && t[1] == t.subrange(0, 4)[1]);
        assert(s[2] == s.subrange(0, 4)[2] && t[2] == t.subrange(0, 4)[2]);
        assert(s[3] == s.subrange(0, 4)[3] && t[3] == t.subrange(0, 4)[3]);
    }

    /// The encoding starts with the variant's own tag, then a zero byte.
    pub proof fn lemma_tag_first(m: WorldMessage)
        ensures
            m.wire().subrange(0, 4) == u32_le(m.tag()),
            le32_at(m.wire(), 0) == m.tag(),
            m.wire()[4] == 0,
            Self::is_known_tag(m.tag()),
    {
        let w = m.wire();
        assert(w.subrange(0, 4) =~= u32_le(m.tag()));
        lemma_le32_in(w, 0, m.tag());
    }

    /// Decoding the encoding of a valid message gives that message back.
    #[verifier::rlimit(40)]
    pub proof fn lemma_round_trip(m: WorldMessage)
        requires
            m.wf(),
        ensures
            Self::decodes(m.wire(), m),
            Self::rejects(m.wire()) is None,
    {
        let w = m.wire();
        Self::lemma_tag_first(m);
        assert(w.subrange(5, w.len() as int) =~= m.payload_wire());
        match m {
            WorldMessage::ClientValidation(x) => {
                ClientValidation::lemma_round_trip(x);
            },
            WorldMessage::CharacterCreateRequest(x) => {
                CharacterCreateRequest::lemma_round_trip(x);
            },
            WorldMessage::CharacterLoginRequest(x) => {
                CharacterLoginRequest::lemma_round_trip(x);
            },
            WorldMessage::CharacterDeleteRequest(x) => {
                CharacterDeleteRequest::lemma_round_trip(x);
            },
            WorldMessage::GeneralChatMessage(x) => {
                GeneralChatMessage::lemma_round_trip(x);
            },
            WorldMessage::LevelLoadComplete(x) => {
                LevelLoadComplete::lemma_round_trip(x);
                ZoneId::lemma_round_trip(x.zone_id);
            },
            WorldMessage::RouteMessage(x) => {
                RouteMessage::lemma_round_trip(x);
            },
            WorldMessage::StringCheck(x) => {
                StringCheck::lemma_round_trip(x);
            },
            WorldMessage::UgcDownloadFailed(x) => {
                UgcDownloadFailed::lemma_round_trip(x);
            },
            _ => {},
        }
    }
}

} // verus!

verus! {

/// Service id of the general service.
pub const SERVICE_GENERAL: u16 = 0;

/// Service id of the world service.
pub const SERVICE_WORLD: u16 = 4;

/// The service envelope of a server-received frame: a 16-bit service id,
/// then that service's message.
#[derive(Debug)]
pub enum LuMessage {
    /// A general-service message, carried as raw bytes to the end of the frame.
    General(Vec<u8>),
    World(WorldMessage),
}

impl LuMessage {
    pub open spec fn service(&self) -> u16 {
        match self {
            LuMessage::General(_) => SERVICE_GENERAL,
            LuMessage::World(_) => SERVICE_WORLD,
        }
    }

    pub open spec fn wf(&self) -> bool {
        match self {
            LuMessage::General(_) => true,
            LuMessage::World(m) => m.wf(),
        }
    }

    pub open spec fn wire(&self) -> Seq<u8> {
        match self {
            LuMessage::General(d) => u16_le(SERVICE_GENERAL) + d@,
            LuMessage::World(m) => u16_le(SERVICE_WORLD) + m.wire(),
        }
    }

    pub open spec fn rejects(s: Seq<u8>) -> Option<DecodeError> {
        if s.len() < 2 {
            Some(DecodeError::TruncatedInput)
        } else if le16_at(s, 0) == SERVICE_GENERAL {
            None
        } else if le16_at(s, 0) == SERVICE_WORLD {
            WorldMessage::rejects(s.subrange(2, s.len() as int))
        } else {
            Some(DecodeError::UnknownDiscriminant)
        }
    }

    pub open spec fn decodes(s: Seq<u8>, v: LuMessage) -> bool {
        &&& s.len() >= 2
        &&& le16_at(s, 0) == v.service()
        &&& match v {
            LuMessage::General(d) => d@ == s.subrange(2, s.len() as int),
            LuMessage::World(m) => WorldMessage::decodes(s.subrange(2, s.len() as int), m),
        }
    }

    pub fn serialize(&self, out: &mut Vec<u8>)
        requires
            self.wf(),
        ensures
            final(out)@ == old(out)@ + self.wire(),
    {
        let ghost start = out@;
        match self {
            LuMessage::General(d) => {
                write_u16(out, SERVICE_GENERAL);
                write_bytes(out, d.as_slice());
            },
            LuMessage::World(m) => {
                write_u16(out, SERVICE_WORLD);
                m.serialize(out);
            },
        }
        assert(final(out)@ =~= start + self.wire());
    }

    pub fn deserialize(buf: &[u8], pos: usize) -> (r: Result<(LuMessage, usize), DecodeError>)
        requires
            pos <= buf@.len(),
        ensures
            r is Err <==> Self::rejects(buf@.subrange(pos as int, buf@.len() as int)) is Some,
            r is Err ==> Self::rejects(buf@.subrange(pos as int, buf@.len() as int)) == Some(r->Err_0),
            r is Ok ==> pos < r->Ok_0.1 <= buf@.len() && Self::decodes(buf@.subrange(pos as int, r->Ok_0.1 as int), r->Ok_0.0),
    {
        let ghost rest = buf@.subrange(pos as int, buf@.len() as int);
        if !has_bytes(buf, pos, 2) {
            return Err(DecodeError::TruncatedInput);
        }
        let (service, p) = read_u16(buf, pos)?;
        assert(service == le16_at(rest, 0));
        assert(rest.subrange(2, rest.len() as int) =~= buf@.subrange(p as int, buf@.len() as int));
        if service == SERVICE_GENERAL {
            let (d, q) = read_rest(buf, p);
            let ghost sub = buf@.subrange(pos as int, q as int);
            assert(sub.subrange(2, sub.len() as int) =~= d@);
            Ok((LuMessage::General(d), q))
        } else if service == SERVICE_WORLD {
            let (m, q) = WorldMessage::deserialize(buf, p)?;
            let ghost sub = buf@.subrange(pos as int, q as int);
            assert(sub.subrange(2, sub.len() as int) =~= buf@.subrange(p as int, q as int));
            Ok((LuMessage::World(m), q))
        } else {
            Err(DecodeError::UnknownDiscriminant)
        }
    }

    /// Decoding the encoding of a valid frame gives that frame back.
    pub proof fn lemma_round_trip(m: LuMessage)
        requires
            m.wf(),
        ensures
            Self::decodes(m.wire(), m),
            Self::rejects(m.wire()) is None,
    {
        let w = m.wire();
        assert(w.subrange(0, 2) =~= u16_le(m.service()));
        lemma_le16_in(w, 0, m.service());
        match m {
            LuMessage::General(d) => {
                assert(w.subrange(2, w.len() as int) =~= d@);
            },
            LuMessage::World(x) => {
                assert(w.subrange(2, w.len() as int) =~= x.wire());
                WorldMessage::lemma_round_trip(x);
            },
        }
    }
}

} // verus!

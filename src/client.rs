//! Messages that a client receives from a world server.
use vstd::prelude::*;
use crate::common::{Lot, LuString33, LuWString33, ObjId, Vector3, ZoneId};
use crate::wire::{
    bool_at, bool_le, has_bytes, le16_at, le32_at, le64_at, lemma_bool_in, lemma_le16_in,
    lemma_le32_in, lemma_le64_in, lemma_u32s_round_trip, read_bool, read_rest, read_u16, read_u32,
    read_u32s, read_u64, read_u8, remaining, skip, u16_le, u32_le, u32s_dec, u32s_le, u64_le, u8_le,
    write_bool, write_bytes, write_padding, write_u16, write_u32, write_u32s, write_u64, write_u8,
    zeros, DecodeError,
};

verus! {

/// One character of an account, as listed for selection.
#[derive(Debug, Clone)]
pub struct CharListChar {
    pub obj_id: ObjId,
    pub char_name: LuWString33,
    pub pending_name: LuWString33,
    pub requires_rename: bool,
    pub is_free_trial: bool,
    pub torso_color: u32,
    pub legs_color: u32,
    pub hair_style: u32,
    pub hair_color: u32,
    pub eyebrow_style: u32,
    pub eye_style: u32,
    pub mouth_style: u32,
    pub last_location: ZoneId,
    pub equipped_items: Vec<Lot>,
}

/// Size of the record that starts `s`, read from its item count.
pub open spec fn char_size(s: Seq<u8>) -> int {
    218 + 4 * le16_at(s, 216)
}

impl CharListChar {
    /// Every padding span of the encoding is zero, whatever the fields hold.
    pub proof fn lemma_padding_zero(m: CharListChar)
        requires
            m.wf(),
        ensures
            m.wire().subrange(8, 12) == zeros(4),
            m.wire().subrange(146, 156) == zeros(10),
            m.wire().subrange(160, 164) == zeros(4),
            m.wire().subrange(176, 184) == zeros(8),
            m.wire().subrange(196, 200) == zeros(4),
            m.wire().subrange(208, 216) == zeros(8),
    {
        reveal(CharListChar::wire);
        let w = m.wire();
        assert(w.subrange(8, 12) =~= zeros(4));
        assert(w.subrange(146, 156) =~= zeros(10));
        assert(w.subrange(160, 164) =~= zeros(4));
        assert(w.subrange(176, 184) =~= zeros(8));
        assert(w.subrange(196, 200) =~= zeros(4));
        assert(w.subrange(208, 216) =~= zeros(8));
    }

    pub open spec fn wf(&self) -> bool {
        &&& self.char_name.wf()
        &&& self.pending_name.wf()
        &&& self.equipped_items@.len() <= u16::MAX
    }

    #[verifier::opaque]
    pub open spec fn wire(&self) -> Seq<u8> {
        u64_le(self.obj_id) + zeros(4) + self.char_name.wire() + self.pending_name.wire()
            + bool_le(self.requires_rename) + bool_le(self.is_free_trial) + zeros(10)
            + u32_le(self.torso_color) + zeros(4) + u32_le(self.legs_color) + u32_le(self.hair_style)
            + u32_le(self.hair_color) + zeros(8) + u32_le(self.eyebrow_style) + u32_le(self.eye_style)
            + u32_le(self.mouth_style) + zeros(4) + self.last_location.wire() + zeros(8)
            + u16_le(self.equipped_items@.len() as u16) + u32s_le(self.equipped_items@)
    }

    /// Why `s` cannot start with a record; `None` where it can.
    pub open spec fn rejects(s: Seq<u8>) -> Option<DecodeError> {
        if s.len() < 218 {
            Some(DecodeError::TruncatedInput)
        } else if s.len() < char_size(s) {
            Some(DecodeError::LengthInconsistency)
        } else {
            None
        }
    }

    /// The padding spans are read and ignored.
    pub open spec fn decodes(s: Seq<u8>, v: CharListChar) -> bool {
        &&& s.len() >= 218
        &&& s.len() == char_size(s)
        &&& v.obj_id == le64_at(s, 0)
        &&& LuWString33::decodes(s.subrange(12, 78), v.char_name)
        &&& LuWString33::decodes(s.subrange(78, 144), v.pending_name)
        &&& v.requires_rename == bool_at(s, 144)
        &&& v.is_free_trial == bool_at(s, 145)
        &&& v.torso_color == le32_at(s, 156)
        &&& v.legs_color == le32_at(s, 164)
        &&& v.hair_style == le32_at(s, 168)
        &&& v.hair_color == le32_at(s, 172)
        &&& v.eyebrow_style == le32_at(s, 184)
        &&& v.eye_style == le32_at(s, 188)
        &&& v.mouth_style == le32_at(s, 192)
        &&& ZoneId::decodes(s.subrange(200, 208), v.last_location)
        &&& u32s_dec(s.subrange(218, s.len() as int), v.equipped_items@)
    }

    pub fn serialize(&self, out: &mut Vec<u8>)
        requires
            self.wf(),
        ensures
            final(out)@ == old(out)@ + self.wire(),
    {
        let ghost start = out@;
        write_u64(out, self.obj_id);
        write_padding(out, 4);
        self.char_name.serialize(out);
        self.pending_name.serialize(out);
        write_bool(out, self.requires_rename);
        write_bool(out, self.is_free_trial);
        write_padding(out, 10);
        write_u32(out, self.torso_color);
        write_padding(out, 4);
        write_u32(out, self.legs_color);
        write_u32(out, self.hair_style);
        write_u32(out, self.hair_color);
        write_padding(out, 8);
        write_u32(out, self.eyebrow_style);
        write_u32(out, self.eye_style);
        write_u32(out, self.mouth_style);
        write_padding(out, 4);
        self.last_location.serialize(out);
        write_padding(out, 8);
        write_u16(out, self.equipped_items.len() as u16);
        write_u32s(out, self.equipped_items.as_slice());
        reveal(CharListChar::wire);
        assert(final(out)@ =~= start + self.wire());
    }

    #[verifier::rlimit(40)]
    pub fn deserialize(buf: &[u8], pos: usize) -> (r: Result<(CharListChar, usize), DecodeError>)
        requires
            pos <= buf@.len(),
        ensures
            r is Err <==> Self::rejects(buf@.subrange(pos as int, buf@.len() as int)) is Some,
            r is Err ==> Self::rejects(buf@.subrange(pos as int, buf@.len() as int)) == Some(r->Err_0),
            r is Ok ==> r->Ok_0.1 == pos + char_size(buf@.subrange(pos as int, buf@.len() as int))
                && r->Ok_0.1 <= buf@.len()
                && Self::decodes(buf@.subrange(pos as int, r->Ok_0.1 as int), r->Ok_0.0),
    {
        let ghost rest = buf@.subrange(pos as int, buf@.len() as int);
        if !has_bytes(buf, pos, 218) {
            return Err(DecodeError::TruncatedInput);
        }
        let (obj_id, p) = read_u64(buf, pos)?;
        let p = skip(buf, p, 4)?;
        let (char_name, p) = LuWString33::deserialize(buf, p)?;
        let (pending_name, p) = LuWString33::deserialize(buf, p)?;
        let (requires_rename, p) = read_bool(buf, p)?;
        let (is_free_trial, p) = read_bool(buf, p)?;
        let p = skip(buf, p, 10)?;
        let (torso_color, p) = read_u32(buf, p)?;
        let p = skip(buf, p, 4)?;
        let (legs_color, p) = read_u32(buf, p)?;
        let (hair_style, p) = read_u32(buf, p)?;
        let (hair_color, p) = read_u32(buf, p)?;
        let p = skip(buf, p, 8)?;
        let (eyebrow_style, p) = read_u32(buf, p)?;
        let (eye_style, p) = read_u32(buf, p)?;
        let (mouth_style, p) = read_u32(buf, p)?;
        let p = skip(buf, p, 4)?;
        let (last_location, p) = ZoneId::deserialize(buf, p)?;
        let p = skip(buf, p, 8)?;
        let (count, p) = read_u16(buf, p)?;
        assert(count == le16_at(rest, 216));
        if (buf.len() - p) / 4 < count as usize {
            return Err(DecodeError::LengthInconsistency);
        }
        let (equipped_items, q) = read_u32s(buf, p, count as usize)?;
        let ghost sub = buf@.subrange(pos as int, q as int);
        assert(le16_at(sub, 216) == count);
        assert(le32_at(sub, 0) == le32_at(buf@, pos as int) && le32_at(sub, 4) == le32_at(buf@, pos + 4));
        assert(sub.subrange(12, 78) =~= buf@.subrange(pos + 12, pos + 78));
        assert(sub.subrange(78, 144) =~= buf@.subrange(pos + 78, pos + 144));
        assert(sub.subrange(200, 208) =~= buf@.subrange(pos + 200, pos + 208));
        assert(sub.subrange(218, sub.len() as int) =~= buf@.subrange(p as int, q as int));
        let v = CharListChar {
            obj_id,
            char_name,
            pending_name,
            requires_rename,
            is_free_trial,
            torso_color,
            legs_color,
            hair_style,
            hair_color,
            eyebrow_style,
            eye_style,
            mouth_style,
            last_location,
            equipped_items,
        };
        Ok((v, q))
    }

    /// Decoding the encoding of a valid record gives that record back, and
    /// the record's own count gives its size.
    #[verifier::rlimit(60)]
    pub proof fn lemma_round_trip(m: CharListChar)
        requires
            m.wf(),
        ensures
            Self::decodes(m.wire(), m),
            m.wire().len() == 218 + 4 * m.equipped_items@.len(),
            le16_at(m.wire(), 216) == m.equipped_items@.len(),
    {
        reveal(CharListChar::wire);
        let w = m.wire();
        let n = m.equipped_items@.len() as u16;
        LuWString33::lemma_round_trip(m.char_name);
        LuWString33::lemma_round_trip(m.pending_name);
        ZoneId::lemma_round_trip(m.last_location);
        lemma_u32s_round_trip(m.equipped_items@);
        assert(w.subrange(0, 8) =~= u64_le(m.obj_id));
        lemma_le64_in(w, 0, m.obj_id);
        assert(w.subrange(12, 78) =~= m.char_name.wire());
        assert(w.subrange(78, 144) =~= m.pending_name.wire());
        assert(w.subrange(144, 145) =~= bool_le(m.requires_rename));
        lemma_bool_in(w, 144, m.requires_rename);
        assert(w.subrange(145, 146) =~= bool_le(m.is_free_trial));
        lemma_bool_in(w, 145, m.is_free_trial);
        assert(w.subrange(156, 160) =~= u32_le(m.torso_color));
        lemma_le32_in(w, 156, m.torso_color);
        assert(w.subrange(164, 168) =~= u32_le(m.legs_color));
        lemma_le32_in(w, 164, m.legs_color);
        assert(w.subrange(168, 172) =~= u32_le(m.hair_style));
        lemma_le32_in(w, 168, m.hair_style);
        assert(w.subrange(172, 176) =~= u32_le(m.hair_color));
        lemma_le32_in(w, 172, m.hair_color);
        assert(w.subrange(184, 188) =~= u32_le(m.eyebrow_style));
        lemma_le32_in(w, 184, m.eyebrow_style);
        assert(w.subrange(188, 192) =~= u32_le(m.eye_style));
        lemma_le32_in(w, 188, m.eye_style);
        assert(w.subrange(192, 196) =~= u32_le(m.mouth_style));
        lemma_le32_in(w, 192, m.mouth_style);
        assert(w.subrange(200, 208) =~= m.last_location.wire());
        assert(w.subrange(216, 218) =~= u16_le(n));
        lemma_le16_in(w, 216, n);
        assert(w.subrange(218, w.len() as int) =~= u32s_le(m.equipped_items@));
    }
}

} // verus!

verus! {

/// The encodings of `cs`, one after another.
pub open spec fn chars_wire(cs: Seq<CharListChar>) -> Seq<u8>
    decreases cs.len(),
{
    if cs.len() == 0 {
        Seq::empty()
    } else {
        cs[0].wire() + chars_wire(cs.drop_first())
    }
}

/// Why `s` cannot start with `k` records; `None` where it can.
pub open spec fn chars_rejects(s: Seq<u8>, k: nat) -> Option<DecodeError>
    decreases k,
{
    if k == 0 {
        None
    } else {
        match CharListChar::rejects(s) {
            Some(e) => Some(e),
            None => chars_rejects(s.subrange(char_size(s), s.len() as int), (k - 1) as nat),
        }
    }
}

/// `s` is exactly the records `cs`, one after another.
pub open spec fn chars_dec(s: Seq<u8>, cs: Seq<CharListChar>) -> bool
    decreases cs.len(),
{
    if cs.len() == 0 {
        s.len() == 0
    } else {
        &&& CharListChar::rejects(s) is None
        &&& CharListChar::decodes(s.subrange(0, char_size(s)), cs[0])
        &&& chars_dec(s.subrange(char_size(s), s.len() as int), cs.drop_first())
    }
}

/// Reads `k` records, in order.
#[verifier::rlimit(80)]
fn read_chars(buf: &[u8], pos: usize, k: u8) -> (r: Result<(Vec<CharListChar>, usize), DecodeError>)
    requires
        pos <= buf@.len(),
    ensures
        r is Err <==> chars_rejects(buf@.subrange(pos as int, buf@.len() as int), k as nat) is Some,
        r is Err ==> chars_rejects(buf@.subrange(pos as int, buf@.len() as int), k as nat) == Some(r->Err_0),
        r is Ok ==> pos <= r->Ok_0.1 <= buf@.len() && r->Ok_0.0@.len() == k
            && chars_dec(buf@.subrange(pos as int, r->Ok_0.1 as int), r->Ok_0.0@),
    decreases k,
{
    let ghost rest = buf@.subrange(pos as int, buf@.len() as int);
    if k == 0 {
        assert(buf@.subrange(pos as int, pos as int).len() == 0);
        return Ok((Vec::new(), pos));
    }
    let (first, p) = CharListChar::deserialize(buf, pos)?;
    assert(rest.subrange(char_size(rest), rest.len() as int) =~= buf@.subrange(p as int, buf@.len() as int));
    let (mut others, q) = read_chars(buf, p, k - 1)?;
    let ghost tail = others@;
    others.insert(0, first);
    let ghost s = buf@.subrange(pos as int, q as int);
    assert(le16_at(s, 216) == le16_at(rest, 216));
    assert(s.subrange(0, char_size(s)) =~= buf@.subrange(pos as int, p as int));
    assert(s.subrange(char_size(s), s.len() as int) =~= buf@.subrange(p as int, q as int));
    assert(others@.drop_first() =~= tail);
    Ok((others, q))
}

/// Writes `cs[i..]`, in order.
fn write_chars(out: &mut Vec<u8>, cs: &[CharListChar], i: usize)
    requires
        i <= cs@.len(),
        forall|j: int| 0 <= j < cs@.len() ==> (#[trigger] cs@[j]).wf(),
    ensures
        final(out)@ == old(out)@ + chars_wire(cs@.subrange(i as int, cs@.len() as int)),
    decreases cs@.len() - i,
{
    let ghost start = out@;
    let ghost tail = cs@.subrange(i as int, cs@.len() as int);
    if i == cs.len() {
        assert(final(out)@ =~= start + chars_wire(tail));
        return;
    }
    cs[i].serialize(out);
    write_chars(out, cs, i + 1);
    assert(tail.drop_first() =~= cs@.subrange(i + 1, cs@.len() as int));
    assert(final(out)@ =~= start + chars_wire(tail));
}

/// Decoding the encodings of valid records, one after another, gives the
/// records back.
pub proof fn lemma_chars_round_trip(cs: Seq<CharListChar>)
    requires
        forall|j: int| 0 <= j < cs.len() ==> (#[trigger] cs[j]).wf(),
    ensures
        chars_dec(chars_wire(cs), cs),
        chars_rejects(chars_wire(cs), cs.len()) is None,
    decreases cs.len(),
{
    if cs.len() > 0 {
        let w = chars_wire(cs);
        let head = cs[0].wire();
        let tail = cs.drop_first();
        assert(cs[0].wf());
        assert forall|j: int| 0 <= j < tail.len() implies (#[trigger] tail[j]).wf() by {
            assert(tail[j] == cs[j + 1]);
        }
        lemma_chars_round_trip(tail);
        CharListChar::lemma_round_trip(cs[0]);
        assert(le16_at(w, 216) == le16_at(head, 216));
        assert(w.subrange(0, head.len() as int) =~= head);
        assert(w.subrange(head.len() as int, w.len() as int) =~= chars_wire(tail));
    }
}

/// The characters of the client's account, with the one played last.
#[derive(Debug, Clone)]
pub struct CharacterListResponse {
    /// Index into `chars` of the character used last.
    pub selected_char: u8,
    pub chars: Vec<CharListChar>,
}

impl CharacterListResponse {
    pub open spec fn wf(&self) -> bool {
        &&& self.chars@.len() <= u8::MAX
        &&& forall|j: int| 0 <= j < self.chars@.len() ==> (#[trigger] self.chars@[j]).wf()
    }

    /// The count comes first, then the selected index, then the records.
    pub open spec fn wire(&self) -> Seq<u8> {
        u8_le(self.chars@.len() as u8) + u8_le(self.selected_char) + chars_wire(self.chars@)
    }

    pub open spec fn rejects(s: Seq<u8>) -> Option<DecodeError> {
        if s.len() < 2 {
            Some(DecodeError::TruncatedInput)
        } else {
            chars_rejects(s.subrange(2, s.len() as int), s[0] as nat)
        }
    }

    pub open spec fn decodes(s: Seq<u8>, v: CharacterListResponse) -> bool {
        &&& s.len() >= 2
        &&& v.chars@.len() == s[0]
        &&& v.selected_char == s[1]
        &&& chars_dec(s.subrange(2, s.len() as int), v.chars@)
    }

    pub fn serialize(&self, out: &mut Vec<u8>)
        requires
            self.wf(),
        ensures
            final(out)@ == old(out)@ + self.wire(),
    {
        let ghost start = out@;
        write_u8(out, self.chars.len() as u8);
        write_u8(out, self.selected_char);
        write_chars(out, self.chars.as_slice(), 0);
        assert(self.chars@.subrange(0, self.chars@.len() as int) =~= self.chars@);
        assert(final(out)@ =~= start + self.wire());
    }

    pub fn deserialize(buf: &[u8], pos: usize) -> (r: Result<(CharacterListResponse, usize), DecodeError>)
        requires
            pos <= buf@.len(),
        ensures
            r is Err <==> Self::rejects(buf@.subrange(pos as int, buf@.len() as int)) is Some,
            r is Err ==> Self::rejects(buf@.subrange(pos as int, buf@.len() as int)) == Some(r->Err_0),
            r is Ok ==> pos + 2 <= r->Ok_0.1 <= buf@.len() && Self::decodes(buf@.subrange(pos as int, r->Ok_0.1 as int), r->Ok_0.0),
    {
        let ghost rest = buf@.subrange(pos as int, buf@.len() as int);
        if !has_bytes(buf, pos, 2) {
            return Err(DecodeError::TruncatedInput);
        }
        let (len, p) = read_u8(buf, pos)?;
        let (selected_char, p) = read_u8(buf, p)?;
        assert(rest.subrange(2, rest.len() as int) =~= buf@.subrange(p as int, buf@.len() as int));
        let (chars, q) = read_chars(buf, p, len)?;
        let ghost sub = buf@.subrange(pos as int, q as int);
        assert(sub.subrange(2, sub.len() as int) =~= buf@.subrange(p as int, q as int));
        Ok((CharacterListResponse { selected_char, chars }, q))
    }

    /// Decoding the encoding of a valid list gives that list back.
    pub proof fn lemma_round_trip(m: CharacterListResponse)
        requires
            m.wf(),
        ensures
            Self::decodes(m.wire(), m),
            Self::rejects(m.wire()) is None,
    {
        let w = m.wire();
        lemma_chars_round_trip(m.chars@);
        assert(w.subrange(2, w.len() as int) =~= chars_wire(m.chars@));
    }
}

} // verus!

verus! {

/// Whether a character delete request succeeded.
#[derive(Debug, Clone, Copy, PartialEq, Eq, Structural)]
pub struct CharacterDeleteResponse {
    pub success: bool,
}

impl CharacterDeleteResponse {
    pub open spec fn wire(&self) -> Seq<u8> {
        bool_le(self.success)
    }

    pub open spec fn decodes(s: Seq<u8>, v: CharacterDeleteResponse) -> bool {
        &&& s.len() == 1
        &&& v.success == bool_at(s, 0)
    }

    pub fn serialize(&self, out: &mut Vec<u8>)
        ensures
            final(out)@ == old(out)@ + self.wire(),
    {
        let ghost start = out@;
        write_bool(out, self.success);
        assert(final(out)@ =~= start + self.wire());
    }

    pub fn deserialize(buf: &[u8], pos: usize) -> (r: Result<(CharacterDeleteResponse, usize), DecodeError>)
        requires
            pos <= buf@.len(),
        ensures
            r is Ok <==> remaining(buf@, pos as int) >= 1,
            r is Err ==> r->Err_0 == DecodeError::TruncatedInput,
            r is Ok ==> r->Ok_0.1 == pos + 1 && Self::decodes(buf@.subrange(pos as int, pos + 1), r->Ok_0.0),
    {
        if !has_bytes(buf, pos, 1) {
            return Err(DecodeError::TruncatedInput);
        }
        let p = pos;
        let (success, p) = read_bool(buf, p)?;
        let ghost sub = buf@.subrange(pos as int, pos + 1);
        Ok((CharacterDeleteResponse { success }, p))
    }

    /// Decoding the encoding of a message gives that message back.
    pub proof fn lemma_round_trip(m: CharacterDeleteResponse)
        ensures
            Self::decodes(m.wire(), m),
    {
        let w = m.wire();
        assert(w.subrange(0, 1) =~= bool_le(m.success));
        lemma_bool_in(w, 0, m.success);
    }
}

/// Tells the client to connect to another server instance.
#[derive(Debug, Clone)]
pub struct TransferToWorld {
    /// The host to connect to.
    pub redirect_ip: LuString33,
    /// The port to connect to.
    pub redirect_port: u16,
    /// Whether the transfer is announced as a maintenance shift.
    pub is_maintenance_transfer: bool,
}

impl TransferToWorld {
    pub open spec fn wf(&self) -> bool {
        self.redirect_ip.wf()
    }

    pub open spec fn wire(&self) -> Seq<u8> {
        self.redirect_ip.wire() + u16_le(self.redirect_port) + bool_le(self.is_maintenance_transfer)
    }

    pub open spec fn decodes(s: Seq<u8>, v: TransferToWorld) -> bool {
        &&& s.len() == 36
        &&& LuString33::decodes(s.subrange(0, 33), v.redirect_ip)
        &&& v.redirect_port == le16_at(s, 33)
        &&& v.is_maintenance_transfer == bool_at(s, 35)
    }

    pub fn serialize(&self, out: &mut Vec<u8>)
        requires
            self.wf(),
        ensures
            final(out)@ == old(out)@ + self.wire(),
    {
        let ghost start = out@;
        self.redirect_ip.serialize(out);
        write_u16(out, self.redirect_port);
        write_bool(out, self.is_maintenance_transfer);
        assert(final(out)@ =~= start + self.wire());
    }

    pub fn deserialize(buf: &[u8], pos: usize) -> (r: Result<(TransferToWorld, usize), DecodeError>)
        requires
            pos <= buf@.len(),
        ensures
            r is Ok <==> remaining(buf@, pos as int) >= 36,
            r is Err ==> r->Err_0 == DecodeError::TruncatedInput,
            r is Ok ==> r->Ok_0.1 == pos + 36 && Self::decodes(buf@.subrange(pos as int, pos + 36), r->Ok_0.0),
    {
        if !has_bytes(buf, pos, 36) {
            return Err(DecodeError::TruncatedInput);
        }
        let p = pos;
        let (redirect_ip, p) = LuString33::deserialize(buf, p)?;
        let (redirect_port, p) = read_u16(buf, p)?;
        let (is_maintenance_transfer, p) = read_bool(buf, p)?;
        let ghost sub = buf@.subrange(pos as int, pos + 36);
        assert(sub.subrange(0, 33) =~= buf@.subrange(pos + 0, pos + 33));
        Ok((TransferToWorld { redirect_ip, redirect_port, is_maintenance_transfer }, p))
    }

    /// Decoding the encoding of a valid message gives that message back.
    pub proof fn lemma_round_trip(m: TransferToWorld)
        requires
            m.wf(),
        ensures
            Self::decodes(m.wire(), m),
    {
        let w = m.wire();
        LuString33::lemma_round_trip(m.redirect_ip);
        assert(w.subrange(0, 33) =~= m.redirect_ip.wire());
        assert(w.subrange(33, 35) =~= u16_le(m.redirect_port));
        lemma_le16_in(w, 33, m.redirect_port);
        assert(w.subrange(35, 36) =~= bool_le(m.is_maintenance_transfer));
        lemma_bool_in(w, 35, m.is_maintenance_transfer);
    }
}

#[derive(Debug, Clone, Copy, PartialEq, Eq, Structural)]
pub struct BlueprintLoadItemResponse {
    pub success: bool,
    pub item_id: ObjId,
    pub dest_item_id: ObjId,
}

impl BlueprintLoadItemResponse {
    pub open spec fn wire(&self) -> Seq<u8> {
        bool_le(self.success) + u64_le(self.item_id) + u64_le(self.dest_item_id)
    }

    pub open spec fn decodes(s: Seq<u8>, v: BlueprintLoadItemResponse) -> bool {
        &&& s.len() == 17
        &&& v.success == bool_at(s, 0)
        &&& v.item_id == le64_at(s, 1)
        &&& v.dest_item_id == le64_at(s, 9)
    }

    pub fn serialize(&self, out: &mut Vec<u8>)
        ensures
            final(out)@ == old(out)@ + self.wire(),
    {
        let ghost start = out@;
        write_bool(out, self.success);
        write_u64(out, self.item_id);
        write_u64(out, self.dest_item_id);
        assert(final(out)@ =~= start + self.wire());
    }

    pub fn deserialize(buf: &[u8], pos: usize) -> (r: Result<(BlueprintLoadItemResponse, usize), DecodeError>)
        requires
            pos <= buf@.len(),
        ensures
            r is Ok <==> remaining(buf@, pos as int) >= 17,
            r is Err ==> r->Err_0 == DecodeError::TruncatedInput,
            r is Ok ==> r->Ok_0.1 == pos + 17 && Self::decodes(buf@.subrange(pos as int, pos + 17), r->Ok_0.0),
    {
        if !has_bytes(buf, pos, 17) {
            return Err(DecodeError::TruncatedInput);
        }
        let p = pos;
        let (success, p) = read_bool(buf, p)?;
        let (item_id, p) = read_u64(buf, p)?;
        let (dest_item_id, p) = read_u64(buf, p)?;
        let ghost sub = buf@.subrange(pos as int, pos + 17);
        assert(le32_at(sub, 1) == le32_at(buf@, pos + 1) && le32_at(sub, 5) == le32_at(buf@, pos + 5));
        assert(le32_at(sub, 9) == le32_at(buf@, pos + 9) && le32_at(sub, 13) == le32_at(buf@, pos + 13));
        Ok((BlueprintLoadItemResponse { success, item_id, dest_item_id }, p))
    }

    /// Decoding the encoding of a message gives that message back.
    pub proof fn lemma_round_trip(m: BlueprintLoadItemResponse)
        ensures
            Self::decodes(m.wire(), m),
    {
        let w = m.wire();
        assert(w.subrange(0, 1) =~= bool_le(m.success));
        lemma_bool_in(w, 0, m.success);
        assert(w.subrange(1, 9) =~= u64_le(m.item_id));
        lemma_le64_in(w, 1, m.item_id);
        assert(w.subrange(9, 17) =~= u64_le(m.dest_item_id));
        lemma_le64_in(w, 9, m.dest_item_id);
    }
}

/// Another player asks to be the client's friend.
#[derive(Debug, Clone)]
pub struct AddFriendRequest {
    /// Name of the requesting character.
    pub sender_name: LuWString33,
    /// Whether the request is for best friends.
    pub is_best_friend_request: bool,
}

impl AddFriendRequest {
    pub open spec fn wf(&self) -> bool {
        self.sender_name.wf()
    }

    pub open spec fn wire(&self) -> Seq<u8> {
        self.sender_name.wire() + bool_le(self.is_best_friend_request)
    }

    pub open spec fn decodes(s: Seq<u8>, v: AddFriendRequest) -> bool {
        &&& s.len() == 67
        &&& LuWString33::decodes(s.subrange(0, 66), v.sender_name)
        &&& v.is_best_friend_request == bool_at(s, 66)
    }

    pub fn serialize(&self, out: &mut Vec<u8>)
        requires
            self.wf(),
        ensures
            final(out)@ == old(out)@ + self.wire(),
    {
        let ghost start = out@;
        self.sender_name.serialize(out);
        write_bool(out, self.is_best_friend_request);
        assert(final(out)@ =~= start + self.wire());
    }

    pub fn deserialize(buf: &[u8], pos: usize) -> (r: Result<(AddFriendRequest, usize), DecodeError>)
        requires
            pos <= buf@.len(),
        ensures
            r is Ok <==> remaining(buf@, pos as int) >= 67,
            r is Err ==> r->Err_0 == DecodeError::TruncatedInput,
            r is Ok ==> r->Ok_0.1 == pos + 67 && Self::decodes(buf@.subrange(pos as int, pos + 67), r->Ok_0.0),
    {
        if !has_bytes(buf, pos, 67) {
            return Err(DecodeError::TruncatedInput);
        }
        let p = pos;
        let (sender_name, p) = LuWString33::deserialize(buf, p)?;
        let (is_best_friend_request, p) = read_bool(buf, p)?;
        let ghost sub = buf@.subrange(pos as int, pos + 67);
        assert(sub.subrange(0, 66) =~= buf@.subrange(pos + 0, pos + 66));
        Ok((AddFriendRequest { sender_name, is_best_friend_request }, p))
    }

    /// Decoding the encoding of a valid message gives that message back.
    pub proof fn lemma_round_trip(m: AddFriendRequest)
        requires
            m.wf(),
        ensures
            Self::decodes(m.wire(), m),
    {
        let w = m.wire();
        LuWString33::lemma_round_trip(m.sender_name);
        assert(w.subrange(0, 66) =~= m.sender_name.wire());
        assert(w.subrange(66, 67) =~= bool_le(m.is_best_friend_request));
        lemma_bool_in(w, 66, m.is_best_friend_request);
    }
}

/// Another player invites the client to a team.
#[derive(Debug, Clone)]
pub struct TeamInvite {
    /// Name of the inviting character.
    pub sender_name: LuWString33,
    /// Object id of the inviting character.
    pub sender_id: ObjId,
}

impl TeamInvite {
    pub open spec fn wf(&self) -> bool {
        self.sender_name.wf()
    }

    pub open spec fn wire(&self) -> Seq<u8> {
        self.sender_name.wire() + u64_le(self.sender_id)
    }

    pub open spec fn decodes(s: Seq<u8>, v: TeamInvite) -> bool {
        &&& s.len() == 74
        &&& LuWString33::decodes(s.subrange(0, 66), v.sender_name)
        &&& v.sender_id == le64_at(s, 66)
    }

    pub fn serialize(&self, out: &mut Vec<u8>)
        requires
            self.wf(),
        ensures
            final(out)@ == old(out)@ + self.wire(),
    {
        let ghost start = out@;
        self.sender_name.serialize(out);
        write_u64(out, self.sender_id);
        assert(final(out)@ =~= start + self.wire());
    }

    pub fn deserialize(buf: &[u8], pos: usize) -> (r: Result<(TeamInvite, usize), DecodeError>)
        requires
            pos <= buf@.len(),
        ensures
            r is Ok <==> remaining(buf@, pos as int) >= 74,
            r is Err ==> r->Err_0 == DecodeError::TruncatedInput,
            r is Ok ==> r->Ok_0.1 == pos + 74 && Self::decodes(buf@.subrange(pos as int, pos + 74), r->Ok_0.0),
    {
        if !has_bytes(buf, pos, 74) {
            return Err(DecodeError::TruncatedInput);
        }
        let p = pos;
        let (sender_name, p) = LuWString33::deserialize(buf, p)?;
        let (sender_id, p) = read_u64(buf, p)?;
        let ghost sub = buf@.subrange(pos as int, pos + 74);
        assert(sub.subrange(0, 66) =~= buf@.subrange(pos + 0, pos + 66));
        assert(le32_at(sub, 66) == le32_at(buf@, pos + 66) && le32_at(sub, 70) == le32_at(buf@, pos + 70));
        Ok((TeamInvite { sender_name, sender_id }, p))
    }

    /// Decoding the encoding of a valid message gives that message back.
    pub proof fn lemma_round_trip(m: TeamInvite)
        requires
            m.wf(),
        ensures
            Self::decodes(m.wire(), m),
    {
        let w = m.wire();
        LuWString33::lemma_round_trip(m.sender_name);
        assert(w.subrange(0, 66) =~= m.sender_name.wire());
        assert(w.subrange(66, 74) =~= u64_le(m.sender_id));
        lemma_le64_in(w, 66, m.sender_id);
    }
}

#[derive(Debug, Clone, Copy, PartialEq, Eq, Structural)]
pub struct MinimumChatModeResponse {
    pub chat_mode: u8,
    pub chat_channel: u8,
}

impl MinimumChatModeResponse {
    pub open spec fn wire(&self) -> Seq<u8> {
        u8_le(self.chat_mode) + u8_le(self.chat_channel)
    }

    pub open spec fn decodes(s: Seq<u8>, v: MinimumChatModeResponse) -> bool {
        &&& s.len() == 2
        &&& v.chat_mode == s[0]
        &&& v.chat_channel == s[1]
    }

    pub fn serialize(&self, out: &mut Vec<u8>)
        ensures
            final(out)@ == old(out)@ + self.wire(),
    {
        let ghost start = out@;
        write_u8(out, self.chat_mode);
        write_u8(out, self.chat_channel);
        assert(final(out)@ =~= start + self.wire());
    }

    pub fn deserialize(buf: &[u8], pos: usize) -> (r: Result<(MinimumChatModeResponse, usize), DecodeError>)
        requires
            pos <= buf@.len(),
        ensures
            r is Ok <==> remaining(buf@, pos as int) >= 2,
            r is Err ==> r->Err_0 == DecodeError::TruncatedInput,
            r is Ok ==> r->Ok_0.1 == pos + 2 && Self::decodes(buf@.subrange(pos as int, pos + 2), r->Ok_0.0),
    {
        if !has_bytes(buf, pos, 2) {
            return Err(DecodeError::TruncatedInput);
        }
        let p = pos;
        let (chat_mode, p) = read_u8(buf, p)?;
        let (chat_channel, p) = read_u8(buf, p)?;
        let ghost sub = buf@.subrange(pos as int, pos + 2);
        Ok((MinimumChatModeResponse { chat_mode, chat_channel }, p))
    }

    /// Decoding the encoding of a message gives that message back.
    pub proof fn lemma_round_trip(m: MinimumChatModeResponse)
        ensures
            Self::decodes(m.wire(), m),
    {
        let w = m.wire();
    }
}

#[derive(Debug, Clone)]
pub struct MinimumChatModeResponsePrivate {
    pub chat_mode: u8,
    pub chat_channel: u8,
    pub recipient_name: LuWString33,
    pub recipient_gm_level: u8,
}

impl MinimumChatModeResponsePrivate {
    pub open spec fn wf(&self) -> bool {
        self.recipient_name.wf()
    }

    pub open spec fn wire(&self) -> Seq<u8> {
        u8_le(self.chat_mode) + u8_le(self.chat_channel) + self.recipient_name.wire() + u8_le(self.recipient_gm_level)
    }

    pub open spec fn decodes(s: Seq<u8>, v: MinimumChatModeResponsePrivate) -> bool {
        &&& s.len() == 69
        &&& v.chat_mode == s[0]
        &&& v.chat_channel == s[1]
        &&& LuWString33::decodes(s.subrange(2, 68), v.recipient_name)
        &&& v.recipient_gm_level == s[68]
    }

    pub fn serialize(&self, out: &mut Vec<u8>)
        requires
            self.wf(),
        ensures
            final(out)@ == old(out)@ + self.wire(),
    {
        let ghost start = out@;
        write_u8(out, self.chat_mode);
        write_u8(out, self.chat_channel);
        self.recipient_name.serialize(out);
        write_u8(out, self.recipient_gm_level);
        assert(final(out)@ =~= start + self.wire());
    }

    pub fn deserialize(buf: &[u8], pos: usize) -> (r: Result<(MinimumChatModeResponsePrivate, usize), DecodeError>)
        requires
            pos <= buf@.len(),
        ensures
            r is Ok <==> remaining(buf@, pos as int) >= 69,
            r is Err ==> r->Err_0 == DecodeError::TruncatedInput,
            r is Ok ==> r->Ok_0.1 == pos + 69 && Self::decodes(buf@.subrange(pos as int, pos + 69), r->Ok_0.0),
    {
        if !has_bytes(buf, pos, 69) {
            return Err(DecodeError::TruncatedInput);
        }
        let p = pos;
        let (chat_mode, p) = read_u8(buf, p)?;
        let (chat_channel, p) = read_u8(buf, p)?;
        let (recipient_name, p) = LuWString33::deserialize(buf, p)?;
        let (recipient_gm_level, p) = read_u8(buf, p)?;
        let ghost sub = buf@.subrange(pos as int, pos + 69);
        assert(sub.subrange(2, 68) =~= buf@.subrange(pos + 2, pos + 68));
        Ok((MinimumChatModeResponsePrivate { chat_mode, chat_channel, recipient_name, recipient_gm_level }, p))
    }

    /// Decoding the encoding of a valid message gives that message back.
    pub proof fn lemma_round_trip(m: MinimumChatModeResponsePrivate)
        requires
            m.wf(),
        ensures
            Self::decodes(m.wire(), m),
    {
        let w = m.wire();
        LuWString33::lemma_round_trip(m.recipient_name);
        assert(w.subrange(2, 68) =~= m.recipient_name.wire());
    }
}

/// The client's free trial status has changed.
#[derive(Debug, Clone, Copy, PartialEq, Eq, Structural)]
pub struct UpdateFreeTrialStatus {
    /// Whether the player is on free trial.
    pub is_free_trial: bool,
}

impl UpdateFreeTrialStatus {
    pub open spec fn wire(&self) -> Seq<u8> {
        bool_le(self.is_free_trial)
    }

    pub open spec fn decodes(s: Seq<u8>, v: UpdateFreeTrialStatus) -> bool {
        &&& s.len() == 1
        &&& v.is_free_trial == bool_at(s, 0)
    }

    pub fn serialize(&self, out: &mut Vec<u8>)
        ensures
            final(out)@ == old(out)@ + self.wire(),
    {
        let ghost start = out@;
        write_bool(out, self.is_free_trial);
        assert(final(out)@ =~= start + self.wire());
    }

    pub fn deserialize(buf: &[u8], pos: usize) -> (r: Result<(UpdateFreeTrialStatus, usize), DecodeError>)
        requires
            pos <= buf@.len(),
        ensures
            r is Ok <==> remaining(buf@, pos as int) >= 1,
            r is Err ==> r->Err_0 == DecodeError::TruncatedInput,
            r is Ok ==> r->Ok_0.1 == pos + 1 && Self::decodes(buf@.subrange(pos as int, pos + 1), r->Ok_0.0),
    {
        if !has_bytes(buf, pos, 1) {
            return Err(DecodeError::TruncatedInput);
        }
        let p = pos;
        let (is_free_trial, p) = read_bool(buf, p)?;
        let ghost sub = buf@.subrange(pos as int, pos + 1);
        Ok((UpdateFreeTrialStatus { is_free_trial }, p))
    }

    /// Decoding the encoding of a message gives that message back.
    pub proof fn lemma_round_trip(m: UpdateFreeTrialStatus)
        ensures
            Self::decodes(m.wire(), m),
    {
        let w = m.wire();
        assert(w.subrange(0, 1) =~= bool_le(m.is_free_trial));
        lemma_bool_in(w, 0, m.is_free_trial);
    }
}
} // verus!

verus! {

/// Kind of instance a zone is loaded as, a closed 32-bit union.
#[derive(Debug, Clone, Copy, PartialEq, Eq, Structural)]
pub enum InstanceType {
    Public,
    Single,
    Team,
    Guild,
    Match,
}

impl InstanceType {
    pub open spec fn tag(&self) -> u32 {
        match self {
            InstanceType::Public => 0,
            InstanceType::Single => 1,
            InstanceType::Team => 2,
            InstanceType::Guild => 3,
            InstanceType::Match => 4,
        }
    }

    pub open spec fn from_tag(t: u32) -> Option<InstanceType> {
        if t == 0 {
            Some(InstanceType::Public)
        } else if t == 1 {
            Some(InstanceType::Single)
        } else if t == 2 {
            Some(InstanceType::Team)
        } else if t == 3 {
            Some(InstanceType::Guild)
        } else if t == 4 {
            Some(InstanceType::Match)
        } else {
            None
        }
    }

    pub open spec fn wire(&self) -> Seq<u8> {
        u32_le(self.tag())
    }

    pub fn serialize(&self, out: &mut Vec<u8>)
        ensures
            final(out)@ == old(out)@ + self.wire(),
    {
        let t: u32 = match self {
            InstanceType::Public => 0,
            InstanceType::Single => 1,
            InstanceType::Team => 2,
            InstanceType::Guild => 3,
            InstanceType::Match => 4,
        };
        write_u32(out, t);
    }

    pub fn deserialize(buf: &[u8], pos: usize) -> (r: Result<(InstanceType, usize), DecodeError>)
        requires
            pos <= buf@.len(),
        ensures
            remaining(buf@, pos as int) < 4 ==> r == Err::<(InstanceType, usize), DecodeError>(DecodeError::TruncatedInput),
            remaining(buf@, pos as int) >= 4 ==> match Self::from_tag(le32_at(buf@, pos as int)) {
                Some(v) => r == Ok::<(InstanceType, usize), DecodeError>((v, (pos + 4) as usize)),
                None => r == Err::<(InstanceType, usize), DecodeError>(DecodeError::UnknownDiscriminant),
            },
    {
        let (t, p) = read_u32(buf, pos)?;
        if t == 0 {
            Ok((InstanceType::Public, p))
        } else if t == 1 {
            Ok((InstanceType::Single, p))
        } else if t == 2 {
            Ok((InstanceType::Team, p))
        } else if t == 3 {
            Ok((InstanceType::Guild, p))
        } else if t == 4 {
            Ok((InstanceType::Match, p))
        } else {
            Err(DecodeError::UnknownDiscriminant)
        }
    }

    /// Every variant is written with its own tag and read back from it.
    pub proof fn lemma_round_trip(m: InstanceType)
        ensures
            le32_at(m.wire(), 0) == m.tag(),
            Self::from_tag(m.tag()) == Some(m),
    {
        assert(m.wire().subrange(0, 4) =~= u32_le(m.tag()));
        lemma_le32_in(m.wire(), 0, m.tag());
    }
}

/// Result of a character create request, a closed 8-bit union.
#[derive(Debug, Clone, Copy, PartialEq, Eq, Structural)]
pub enum CharacterCreateResponse {
    /// The character has been created.
    Success,
    /// Something went wrong during creation.
    GeneralFailure,
    /// The name is not allowed by the moderation policy.
    NameNotAllowed,
    /// The three-part name is already in use.
    PredefinedNameInUse,
    /// The custom name is already in use.
    CustomNameInUse,
}

impl CharacterCreateResponse {
    pub open spec fn tag(&self) -> u8 {
        match self {
            CharacterCreateResponse::Success => 0,
            CharacterCreateResponse::GeneralFailure => 1,
            CharacterCreateResponse::NameNotAllowed => 2,
            CharacterCreateResponse::PredefinedNameInUse => 3,
            CharacterCreateResponse::CustomNameInUse => 4,
        }
    }

    pub open spec fn from_tag(t: u8) -> Option<CharacterCreateResponse> {
        if t == 0 {
            Some(CharacterCreateResponse::Success)
        } else if t == 1 {
            Some(CharacterCreateResponse::GeneralFailure)
        } else if t == 2 {
            Some(CharacterCreateResponse::NameNotAllowed)
        } else if t == 3 {
            Some(CharacterCreateResponse::PredefinedNameInUse)
        } else if t == 4 {
            Some(CharacterCreateResponse::CustomNameInUse)
        } else {
            None
        }
    }

    pub open spec fn wire(&self) -> Seq<u8> {
        u8_le(self.tag())
    }

    pub fn serialize(&self, out: &mut Vec<u8>)
        ensures
            final(out)@ == old(out)@ + self.wire(),
    {
        let t: u8 = match self {
            CharacterCreateResponse::Success => 0,
            CharacterCreateResponse::GeneralFailure => 1,
            CharacterCreateResponse::NameNotAllowed => 2,
            CharacterCreateResponse::PredefinedNameInUse => 3,
            CharacterCreateResponse::CustomNameInUse => 4,
        };
        write_u8(out, t);
    }

    pub fn deserialize(buf: &[u8], pos: usize) -> (r: Result<(CharacterCreateResponse, usize), DecodeError>)
        requires
            pos <= buf@.len(),
        ensures
            remaining(buf@, pos as int) < 1 ==> r == Err::<(CharacterCreateResponse, usize), DecodeError>(DecodeError::TruncatedInput),
            remaining(buf@, pos as int) >= 1 ==> match Self::from_tag(buf@[pos as int]) {
                Some(v) => r == Ok::<(CharacterCreateResponse, usize), DecodeError>((v, (pos + 1) as usize)),
                None => r == Err::<(CharacterCreateResponse, usize), DecodeError>(DecodeError::UnknownDiscriminant),
            },
    {
        let (t, p) = read_u8(buf, pos)?;
        if t == 0 {
            Ok((CharacterCreateResponse::Success, p))
        } else if t == 1 {
            Ok((CharacterCreateResponse::GeneralFailure, p))
        } else if t == 2 {
            Ok((CharacterCreateResponse::NameNotAllowed, p))
        } else if t == 3 {
            Ok((CharacterCreateResponse::PredefinedNameInUse, p))
        } else if t == 4 {
            Ok((CharacterCreateResponse::CustomNameInUse, p))
        } else {
            Err(DecodeError::UnknownDiscriminant)
        }
    }

    /// Every variant is written with its own tag and read back from it.
    pub proof fn lemma_round_trip(m: CharacterCreateResponse)
        ensures
            m.wire()[0] == m.tag(),
            Self::from_tag(m.tag()) == Some(m),
    {
    }
}

/// Tells the client which zone to load.
#[derive(Debug, Clone, Copy, PartialEq, Eq, Structural)]
pub struct LoadStaticZone {
    /// The zone to be loaded.
    pub zone_id: ZoneId,
    /// Checksum of the server's map; the client refuses a map that differs.
    pub map_checksum: u32,
    /// Where the player stands in the new world.
    pub player_position: Vector3,
    pub instance_type: InstanceType,
}

impl LoadStaticZone {
    /// Two unused editor bytes stand between the checksum and the position.
    pub open spec fn wire(&self) -> Seq<u8> {
        self.zone_id.wire() + u32_le(self.map_checksum) + zeros(2) + self.player_position.wire()
            + self.instance_type.wire()
    }

    pub open spec fn rejects(s: Seq<u8>) -> Option<DecodeError> {
        if s.len() < 30 {
            Some(DecodeError::TruncatedInput)
        } else if InstanceType::from_tag(le32_at(s, 26)) is None {
            Some(DecodeError::UnknownDiscriminant)
        } else {
            None
        }
    }

    pub open spec fn decodes(s: Seq<u8>, v: LoadStaticZone) -> bool {
        &&& s.len() == 30
        &&& ZoneId::decodes(s.subrange(0, 8), v.zone_id)
        &&& v.map_checksum == le32_at(s, 8)
        &&& Vector3::decodes(s.subrange(14, 26), v.player_position)
        &&& InstanceType::from_tag(le32_at(s, 26)) == Some(v.instance_type)
    }

    pub fn serialize(&self, out: &mut Vec<u8>)
        ensures
            final(out)@ == old(out)@ + self.wire(),
    {
        let ghost start = out@;
        self.zone_id.serialize(out);
        write_u32(out, self.map_checksum);
        write_padding(out, 2);
        self.player_position.serialize(out);
        self.instance_type.serialize(out);
        assert(final(out)@ =~= start + self.wire());
    }

    pub fn deserialize(buf: &[u8], pos: usize) -> (r: Result<(LoadStaticZone, usize), DecodeError>)
        requires
            pos <= buf@.len(),
        ensures
            r is Err <==> Self::rejects(buf@.subrange(pos as int, buf@.len() as int)) is Some,
            r is Err ==> Self::rejects(buf@.subrange(pos as int, buf@.len() as int)) == Some(r->Err_0),
            r is Ok ==> r->Ok_0.1 == pos + 30 && Self::decodes(buf@.subrange(pos as int, pos + 30), r->Ok_0.0),
    {
        let ghost rest = buf@.subrange(pos as int, buf@.len() as int);
        if !has_bytes(buf, pos, 30) {
            return Err(DecodeError::TruncatedInput);
        }
        let (zone_id, p) = ZoneId::deserialize(buf, pos)?;
        let (map_checksum, p) = read_u32(buf, p)?;
        let p = skip(buf, p, 2)?;
        let (player_position, p) = Vector3::deserialize(buf, p)?;
        assert(le32_at(rest, 26) == le32_at(buf@, pos + 26));
        let (instance_type, p) = InstanceType::deserialize(buf, p)?;
        let ghost sub = buf@.subrange(pos as int, pos + 30);
        assert(sub.subrange(0, 8) =~= buf@.subrange(pos as int, pos + 8));
        assert(sub.subrange(14, 26) =~= buf@.subrange(pos + 14, pos + 26));
        assert(le32_at(sub, 26) == le32_at(buf@, pos + 26));
        Ok((LoadStaticZone { zone_id, map_checksum, player_position, instance_type }, p))
    }

    /// The two unused editor bytes are written as zeros, whatever the fields hold.
    pub proof fn lemma_padding_zero(m: LoadStaticZone)
        ensures
            m.wire().subrange(12, 14) == zeros(2),
    {
        assert(m.wire().subrange(12, 14) =~= zeros(2));
    }

    /// Decoding the encoding of a message gives that message back.
    pub proof fn lemma_round_trip(m: LoadStaticZone)
        ensures
            Self::decodes(m.wire(), m),
            Self::rejects(m.wire()) is None,
    {
        let w = m.wire();
        ZoneId::lemma_round_trip(m.zone_id);
        Vector3::lemma_round_trip(m.player_position);
        InstanceType::lemma_round_trip(m.instance_type);
        assert(w.subrange(0, 8) =~= m.zone_id.wire());
        assert(w.subrange(8, 12) =~= u32_le(m.map_checksum));
        lemma_le32_in(w, 8, m.map_checksum);
        assert(w.subrange(14, 26) =~= m.player_position.wire());
        assert(w.subrange(26, 30) =~= u32_le(m.instance_type.tag()));
        lemma_le32_in(w, 26, m.instance_type.tag());
    }
}

/// Character data for the client to create, in the protocol's name-value
/// format, carried as raw bytes to the end of the frame.
#[derive(Debug, Clone)]
pub struct CreateCharacter {
    pub data: Vec<u8>,
}

impl CreateCharacter {
    pub open spec fn wire(&self) -> Seq<u8> {
        self.data@
    }

    pub fn serialize(&self, out: &mut Vec<u8>)
        ensures
            final(out)@ == old(out)@ + self.wire(),
    {
        write_bytes(out, self.data.as_slice());
    }

    pub fn deserialize(buf: &[u8], pos: usize) -> (r: (CreateCharacter, usize))
        requires
            pos <= buf@.len(),
        ensures
            r.1 == buf@.len(),
            r.0.data@ == buf@.subrange(pos as int, buf@.len() as int),
    {
        let (data, q) = read_rest(buf, pos);
        (CreateCharacter { data }, q)
    }
}

} // verus!

verus! {

/// Why `p`, the bytes after a client message's tag and padding, cannot hold
/// the payload of tag `t`; `None` where they can. An unknown tag takes the
/// rest of the frame, so nothing rejects it.
pub open spec fn client_payload_rejects(t: u32, p: Seq<u8>) -> Option<DecodeError> {
    let short = |n: int| if p.len() < n { Some(DecodeError::TruncatedInput) } else { None };
    if t == 2 {
        LoadStaticZone::rejects(p)
    } else if t == 6 {
        CharacterListResponse::rejects(p)
    } else if t == 7 {
        if p.len() < 1 {
            Some(DecodeError::TruncatedInput)
        } else if CharacterCreateResponse::from_tag(p[0]) is None {
            Some(DecodeError::UnknownDiscriminant)
        } else {
            None
        }
    } else if t == 11 {
        short(1)
    } else if t == 14 {
        short(36)
    } else if t == 23 {
        short(17)
    } else if t == 27 {
        short(67)
    } else if t == 35 {
        short(74)
    } else if t == 57 {
        short(2)
    } else if t == 58 {
        short(69)
    } else if t == 62 {
        short(1)
    } else {
        None
    }
}

/// Every world message a client receives: a 32-bit tag, one padding byte,
/// then the payload. The set is open: a tag this library does not know
/// yields `Unknown` with the tag and the rest of the frame.
#[derive(Debug)]
pub enum ClientMessage {
    LoadStaticZone(LoadStaticZone),
    CreateCharacter(CreateCharacter),
    CharacterListResponse(CharacterListResponse),
    CharacterCreateResponse(CharacterCreateResponse),
    CharacterDeleteResponse(CharacterDeleteResponse),
    /// A game message for one object, carried as raw bytes to the end of the frame.
    SubjectGameMessage(Vec<u8>),
    TransferToWorld(TransferToWorld),
    BlueprintLoadItemResponse(BlueprintLoadItemResponse),
    AddFriendRequest(AddFriendRequest),
    TeamInvite(TeamInvite),
    MinimumChatModeResponse(MinimumChatModeResponse),
    MinimumChatModeResponsePrivate(MinimumChatModeResponsePrivate),
    UpdateFreeTrialStatus(UpdateFreeTrialStatus),
    /// A message of a tag outside the known set, with its raw payload.
    Unknown(u32, Vec<u8>),
}

impl ClientMessage {
    pub open spec fn tag(&self) -> u32 {
        match self {
            ClientMessage::LoadStaticZone(_) => 2,
            ClientMessage::CreateCharacter(_) => 4,
            ClientMessage::CharacterListResponse(_) => 6,
            ClientMessage::CharacterCreateResponse(_) => 7,
            ClientMessage::CharacterDeleteResponse(_) => 11,
            ClientMessage::SubjectGameMessage(_) => 12,
            ClientMessage::TransferToWorld(_) => 14,
            ClientMessage::BlueprintLoadItemResponse(_) => 23,
            ClientMessage::AddFriendRequest(_) => 27,
            ClientMessage::TeamInvite(_) => 35,
            ClientMessage::MinimumChatModeResponse(_) => 57,
            ClientMessage::MinimumChatModeResponsePrivate(_) => 58,
            ClientMessage::UpdateFreeTrialStatus(_) => 62,
            ClientMessage::Unknown(t, _) => *t,
        }
    }

    pub open spec fn is_known_tag(t: u32) -> bool {
        t == 2 || t == 4 || t == 6 || t == 7 || t == 11 || t == 12 || t == 14 || t == 23 || t == 27 || t == 35 || t == 57 || t == 58 || t == 62
    }

    /// A fallback value never takes a known tag.
    pub open spec fn wf(&self) -> bool {
        match self {
            ClientMessage::CharacterListResponse(m) => m.wf(),
            ClientMessage::TransferToWorld(m) => m.wf(),
            ClientMessage::AddFriendRequest(m) => m.wf(),
            ClientMessage::TeamInvite(m) => m.wf(),
            ClientMessage::MinimumChatModeResponsePrivate(m) => m.wf(),
            ClientMessage::Unknown(t, _) => !Self::is_known_tag(*t),
            _ => true,
        }
    }

    pub open spec fn payload_wire(&self) -> Seq<u8> {
        match self {
            ClientMessage::LoadStaticZone(m) => m.wire(),
            ClientMessage::CreateCharacter(m) => m.wire(),
            ClientMessage::CharacterListResponse(m) => m.wire(),
            ClientMessage::CharacterCreateResponse(m) => m.wire(),
            ClientMessage::CharacterDeleteResponse(m) => m.wire(),
            ClientMessage::SubjectGameMessage(d) => d@,
            ClientMessage::TransferToWorld(m) => m.wire(),
            ClientMessage::BlueprintLoadItemResponse(m) => m.wire(),
            ClientMessage::AddFriendRequest(m) => m.wire(),
            ClientMessage::TeamInvite(m) => m.wire(),
            ClientMessage::MinimumChatModeResponse(m) => m.wire(),
            ClientMessage::MinimumChatModeResponsePrivate(m) => m.wire(),
            ClientMessage::UpdateFreeTrialStatus(m) => m.wire(),
            ClientMessage::Unknown(_, d) => d@,
        }
    }

    /// Tag, one zero padding byte, payload.
    pub open spec fn wire(&self) -> Seq<u8> {
        u32_le(self.tag()) + zeros(1) + self.payload_wire()
    }

    pub open spec fn payload_decodes(p: Seq<u8>, v: ClientMessage) -> bool {
        match v {
            ClientMessage::LoadStaticZone(m) => LoadStaticZone::decodes(p, m),
            ClientMessage::CreateCharacter(m) => m.data@ == p,
            ClientMessage::CharacterListResponse(m) => CharacterListResponse::decodes(p, m),
            ClientMessage::CharacterCreateResponse(m) => p.len() == 1 && CharacterCreateResponse::from_tag(p[0]) == Some(m),
            ClientMessage::CharacterDeleteResponse(m) => CharacterDeleteResponse::decodes(p, m),
            ClientMessage::SubjectGameMessage(d) => d@ == p,
            ClientMessage::TransferToWorld(m) => TransferToWorld::decodes(p, m),
            ClientMessage::BlueprintLoadItemResponse(m) => BlueprintLoadItemResponse::decodes(p, m),
            ClientMessage::AddFriendRequest(m) => AddFriendRequest::decodes(p, m),
            ClientMessage::TeamInvite(m) => TeamInvite::decodes(p, m),
            ClientMessage::MinimumChatModeResponse(m) => MinimumChatModeResponse::decodes(p, m),
            ClientMessage::MinimumChatModeResponsePrivate(m) => MinimumChatModeResponsePrivate::decodes(p, m),
            ClientMessage::UpdateFreeTrialStatus(m) => UpdateFreeTrialStatus::decodes(p, m),
            ClientMessage::Unknown(t, d) => !Self::is_known_tag(t) && d@ == p,
        }
    }

    /// The padding byte after the tag is read and ignored.
    pub open spec fn decodes(s: Seq<u8>, v: ClientMessage) -> bool {
        &&& s.len() >= 5
        &&& le32_at(s, 0) == v.tag()
        &&& Self::payload_decodes(s.subrange(5, s.len() as int), v)
    }

    pub open spec fn rejects(s: Seq<u8>) -> Option<DecodeError> {
        if s.len() < 5 {
            Some(DecodeError::TruncatedInput)
        } else {
            client_payload_rejects(le32_at(s, 0), s.subrange(5, s.len() as int))
        }
    }

    pub fn serialize(&self, out: &mut Vec<u8>)
        requires
            self.wf(),
        ensures
            final(out)@ == old(out)@ + self.wire(),
    {
        let ghost start = out@;
        match self {
            ClientMessage::LoadStaticZone(m) => {
                write_u32(out, 2);
                write_padding(out, 1);
                m.serialize(out);
            },
            ClientMessage::CreateCharacter(m) => {
                write_u32(out, 4);
                write_padding(out, 1);
                m.serialize(out);
            },
            ClientMessage::CharacterListResponse(m) => {
                write_u32(out, 6);
                write_padding(out, 1);
                m.serialize(out);
            },
            ClientMessage::CharacterCreateResponse(m) => {
                write_u32(out, 7);
                write_padding(out, 1);
                m.serialize(out);
            },
            ClientMessage::CharacterDeleteResponse(m) => {
                write_u32(out, 11);
                write_padding(out, 1);
                m.serialize(out);
            },
            ClientMessage::SubjectGameMessage(m) => {
                write_u32(out, 12);
                write_padding(out, 1);
                write_bytes(out, m.as_slice());
            },
            ClientMessage::TransferToWorld(m) => {
                write_u32(out, 14);
                write_padding(out, 1);
                m.serialize(out);
            },
            ClientMessage::BlueprintLoadItemResponse(m) => {
                write_u32(out, 23);
                write_padding(out, 1);
                m.serialize(out);
            },
            ClientMessage::AddFriendRequest(m) => {
                write_u32(out, 27);
                write_padding(out, 1);
                m.serialize(out);
            },
            ClientMessage::TeamInvite(m) => {
                write_u32(out, 35);
                write_padding(out, 1);
                m.serialize(out);
            },
            ClientMessage::MinimumChatModeResponse(m) => {
                write_u32(out, 57);
                write_padding(out, 1);
                m.serialize(out);
            },
            ClientMessage::MinimumChatModeResponsePrivate(m) => {
                write_u32(out, 58);
                write_padding(out, 1);
                m.serialize(out);
            },
            ClientMessage::UpdateFreeTrialStatus(m) => {
                write_u32(out, 62);
                write_padding(out, 1);
                m.serialize(out);
            },
            ClientMessage::Unknown(t, d) => {
                write_u32(out, *t);
                write_padding(out, 1);
                write_bytes(out, d.as_slice());
            },
        }
        assert(final(out)@ =~= start + self.wire());
    }

    #[verifier::rlimit(40)]
    pub fn deserialize(buf: &[u8], pos: usize) -> (r: Result<(ClientMessage, usize), DecodeError>)
        requires
            pos <= buf@.len(),
        ensures
            r is Err <==> Self::rejects(buf@.subrange(pos as int, buf@.len() as int)) is Some,
            r is Err ==> Self::rejects(buf@.subrange(pos as int, buf@.len() as int)) == Some(r->Err_0),
            r is Ok ==> pos < r->Ok_0.1 <= buf@.len() && Self::decodes(buf@.subrange(pos as int, r->Ok_0.1 as int), r->Ok_0.0),
    {
        let ghost rest = buf@.subrange(pos as int, buf@.len() as int);
        if !has_bytes(buf, pos, 5) {
            return Err(DecodeError::TruncatedInput);
        }
        let (t, p) = read_u32(buf, pos)?;
        assert(t == le32_at(rest, 0));
        let p = p + 1;
        let ghost payload = buf@.subrange(p as int, buf@.len() as int);
        assert(rest.subrange(5, rest.len() as int) =~= payload);
        if t == 2 {
            let (m, q) = LoadStaticZone::deserialize(buf, p)?;
            let v = ClientMessage::LoadStaticZone(m);
            proof {
                Self::lemma_frame(buf@, pos as int, q as int, v);
            }
            Ok((v, q))
        } else if t == 4 {
            let (m, q) = CreateCharacter::deserialize(buf, p);
            let v = ClientMessage::CreateCharacter(m);
            proof {
                Self::lemma_frame(buf@, pos as int, q as int, v);
            }
            Ok((v, q))
        } else if t == 6 {
            let (m, q) = CharacterListResponse::deserialize(buf, p)?;
            let v = ClientMessage::CharacterListResponse(m);
            proof {
                Self::lemma_frame(buf@, pos as int, q as int, v);
            }
            Ok((v, q))
        } else if t == 7 {
            let (m, q) = CharacterCreateResponse::deserialize(buf, p)?;
            let v = ClientMessage::CharacterCreateResponse(m);
            proof {
                Self::lemma_frame(buf@, pos as int, q as int, v);
            }
            Ok((v, q))
        } else if t == 11 {
            let (m, q) = CharacterDeleteResponse::deserialize(buf, p)?;
            let v = ClientMessage::CharacterDeleteResponse(m);
            proof {
                Self::lemma_frame(buf@, pos as int, q as int, v);
            }
            Ok((v, q))
        } else if t == 12 {
            let (d, q) = read_rest(buf, p);
            let v = ClientMessage::SubjectGameMessage(d);
            proof {
                Self::lemma_frame(buf@, pos as int, q as int, v);
            }
            Ok((v, q))
        } else if t == 14 {
            let (m, q) = TransferToWorld::deserialize(buf, p)?;
            let v = ClientMessage::TransferToWorld(m);
            proof {
                Self::lemma_frame(buf@, pos as int, q as int, v);
            }
            Ok((v, q))
        } else if t == 23 {
            let (m, q) = BlueprintLoadItemResponse::deserialize(buf, p)?;
            let v = ClientMessage::BlueprintLoadItemResponse(m);
            proof {
                Self::lemma_frame(buf@, pos as int, q as int, v);
            }
            Ok((v, q))
        } else if t == 27 {
            let (m, q) = AddFriendRequest::deserialize(buf, p)?;
            let v = ClientMessage::AddFriendRequest(m);
            proof {
                Self::lemma_frame(buf@, pos as int, q as int, v);
            }
            Ok((v, q))
        } else if t == 35 {
            let (m, q) = TeamInvite::deserialize(buf, p)?;
            let v = ClientMessage::TeamInvite(m);
            proof {
                Self::lemma_frame(buf@, pos as int, q as int, v);
            }
            Ok((v, q))
        } else if t == 57 {
            let (m, q) = MinimumChatModeResponse::deserialize(buf, p)?;
            let v = ClientMessage::MinimumChatModeResponse(m);
            proof {
                Self::lemma_frame(buf@, pos as int, q as int, v);
            }
            Ok((v, q))
        } else if t == 58 {
            let (m, q) = MinimumChatModeResponsePrivate::deserialize(buf, p)?;
            let v = ClientMessage::MinimumChatModeResponsePrivate(m);
            proof {
                Self::lemma_frame(buf@, pos as int, q as int, v);
            }
            Ok((v, q))
        } else if t == 62 {
            let (m, q) = UpdateFreeTrialStatus::deserialize(buf, p)?;
            let v = ClientMessage::UpdateFreeTrialStatus(m);
            proof {
                Self::lemma_frame(buf@, pos as int, q as int, v);
            }
            Ok((v, q))
        } else {
            let (d, q) = read_rest(buf, p);
            let v = ClientMessage::Unknown(t, d);
            proof {
                Self::lemma_frame(buf@, pos as int, q as int, v);
            }
            Ok((v, q))
        }
    }

    proof fn lemma_frame(s: Seq<u8>, pos: int, q: int, v: ClientMessage)
        requires
            0 <= pos,
            pos + 5 <= q <= s.len(),
            le32_at(s, pos) == v.tag(),
            Self::payload_decodes(s.subrange(pos + 5, q), v),
        ensures
            Self::decodes(s.subrange(pos, q), v),
    {
        let sub = s.subrange(pos, q);
        assert(sub.subrange(5, sub.len() as int) =~= s.subrange(pos + 5, q));
    }

    /// The encoding starts with the variant's own tag, then a zero byte.
    pub proof fn lemma_tag_first(m: ClientMessage)
        ensures
            m.wire().subrange(0, 4) == u32_le(m.tag()),
            le32_at(m.wire(), 0) == m.tag(),
            m.wire()[4] == 0,
    {
        let w = m.wire();
        assert(w.subrange(0, 4) =~= u32_le(m.tag()));
        lemma_le32_in(w, 0, m.tag());
    }

    /// Decoding the encoding of a valid message gives that message back; a
    /// fallback value comes back as the same fallback.
    #[verifier::rlimit(40)]
    pub proof fn lemma_round_trip(m: ClientMessage)
        requires
            m.wf(),
        ensures
            Self::decodes(m.wire(), m),
            Self::rejects(m.wire()) is None,
    {
        let w = m.wire();
        Self::lemma_tag_first(m);
        assert(w.subrange(5, w.len() as int) =~= m.payload_wire());
        match m {
            ClientMessage::LoadStaticZone(x) => {
                LoadStaticZone::lemma_round_trip(x);
            },
            ClientMessage::CharacterListResponse(x) => {
                CharacterListResponse::lemma_round_trip(x);
            },
            ClientMessage::CharacterCreateResponse(x) => {
                CharacterCreateResponse::lemma_round_trip(x);
            },
            ClientMessage::CharacterDeleteResponse(x) => {
                CharacterDeleteResponse::lemma_round_trip(x);
            },
            ClientMessage::TransferToWorld(x) => {
                TransferToWorld::lemma_round_trip(x);
            },
            ClientMessage::BlueprintLoadItemResponse(x) => {
                BlueprintLoadItemResponse::lemma_round_trip(x);
            },
            ClientMessage::AddFriendRequest(x) => {
                AddFriendRequest::lemma_round_trip(x);
            },
            ClientMessage::TeamInvite(x) => {
                TeamInvite::lemma_round_trip(x);
            },
            ClientMessage::MinimumChatModeResponse(x) => {
                MinimumChatModeResponse::lemma_round_trip(x);
            },
            ClientMessage::MinimumChatModeResponsePrivate(x) => {
                MinimumChatModeResponsePrivate::lemma_round_trip(x);
            },
            ClientMessage::UpdateFreeTrialStatus(x) => {
                UpdateFreeTrialStatus::lemma_round_trip(x);
            },
            _ => {},
        }
    }
}

} // verus!

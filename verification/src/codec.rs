//! The binary layout of a stored mission.
//!
//! A record is, in this order: one byte holding the layout version; the
//! identifier, the launch date and the estimated arrival date, each as eight
//! little-endian bytes; then the name, the destination and the description,
//! each as a two-byte little-endian length followed by that many bytes of
//! UTF-8. A record is never longer than [`MAX_RECORD_SIZE`] bytes.

use crate::mission::{MissionView, PayloadView, SpaceMission, SpaceMissionPayload};
use vstd::bytes::{
    lemma_auto_spec_u16_to_from_le_bytes, lemma_auto_spec_u64_to_from_le_bytes,
    spec_u16_from_le_bytes, spec_u16_to_le_bytes, spec_u64_from_le_bytes, spec_u64_to_le_bytes,
    u16_from_le_bytes, u16_to_le_bytes, u64_from_le_bytes, u64_to_le_bytes,
};
use vstd::pervasive::unreached;
use vstd::prelude::*;
use vstd::slice::{slice_subrange, slice_to_vec};
use vstd::utf8::{
    decode_utf8, decode_utf8_encode_utf8, encode_utf8, encode_utf8_decode_utf8,
    encode_utf8_valid_utf8, valid_utf8,
};

verus! {

/// The version that the first byte of every record holds.
pub const FORMAT_VERSION: u8 = 1;

/// The largest number of bytes that a record may take.
pub const MAX_RECORD_SIZE: usize = 1024;

/// The bytes before the first text: the version and three 64-bit numbers.
pub const FIXED_PART_SIZE: usize = 25;

/// A text as the record holds it: its length in bytes, then its UTF-8 bytes.
pub open spec fn text_field(text: Seq<char>) -> Seq<u8> {
    spec_u16_to_le_bytes(encode_utf8(text).len() as u16) + encode_utf8(text)
}

/// The three numbers behind the version byte.
pub open spec fn fixed_part(m: MissionView) -> Seq<u8> {
    seq![FORMAT_VERSION] + spec_u64_to_le_bytes(m.id) + spec_u64_to_le_bytes(m.launch_date)
        + spec_u64_to_le_bytes(m.estimated_arrival_date)
}

/// The record that holds `m`.
pub open spec fn encoding(m: MissionView) -> Seq<u8> {
    fixed_part(m) + text_field(m.mission_name) + text_field(m.destination) + text_field(
        m.description,
    )
}

/// The number of bytes that the record of `m` takes.
pub open spec fn encoded_len(m: MissionView) -> nat {
    FIXED_PART_SIZE as nat + 2 + encode_utf8(m.mission_name).len() + 2 + encode_utf8(
        m.destination,
    ).len() + 2 + encode_utf8(m.description).len()
}

/// Whether the record of `m` stays within [`MAX_RECORD_SIZE`].
pub open spec fn fits(m: MissionView) -> bool {
    encoded_len(m) <= MAX_RECORD_SIZE
}

/// Whether a mission that carries the texts of `item` has a record within
/// [`MAX_RECORD_SIZE`]. The numbers of a mission take the same room whatever
/// they are.
pub open spec fn payload_fits(item: PayloadView) -> bool {
    fits(item.with_id(0))
}

/// The text field that starts at `at` in `bytes`, with the place where the
/// next field starts; nothing where the field is cut short or is not UTF-8.
pub open spec fn text_at(bytes: Seq<u8>, at: int) -> Option<(Seq<char>, int)> {
    if 0 <= at && at + 2 <= bytes.len() {
        let len = spec_u16_from_le_bytes(bytes.subrange(at, at + 2)) as int;
        let end = at + 2 + len;
        if end <= bytes.len() && valid_utf8(bytes.subrange(at + 2, end)) {
            Some((decode_utf8(bytes.subrange(at + 2, end)), end))
        } else {
            None
        }
    } else {
        None
    }
}

/// The mission that `bytes` holds; nothing where `bytes` is no record.
pub open spec fn decoding(bytes: Seq<u8>) -> Option<MissionView> {
    if bytes.len() < FIXED_PART_SIZE || bytes.len() > MAX_RECORD_SIZE || bytes[0]
        != FORMAT_VERSION {
        None
    } else {
        match text_at(bytes, FIXED_PART_SIZE as int) {
            None => None,
            Some((mission_name, after_name)) => match text_at(bytes, after_name) {
                None => None,
                Some((destination, after_destination)) => match text_at(
                    bytes,
                    after_destination,
                ) {
                    None => None,
                    Some((description, end)) => if end == bytes.len() {
                        Some(
                            MissionView {
                                id: spec_u64_from_le_bytes(bytes.subrange(1, 9)),
                                mission_name,
                                destination,
                                launch_date: spec_u64_from_le_bytes(bytes.subrange(9, 17)),
                                estimated_arrival_date: spec_u64_from_le_bytes(
                                    bytes.subrange(17, 25),
                                ),
                                description,
                            },
                        )
                    } else {
                        None
                    },
                },
            },
        }
    }
}

/// A record takes as many bytes as [`encoded_len`] says, so the record of a
/// mission that fits is within [`MAX_RECORD_SIZE`].
pub proof fn encoding_takes_encoded_len(m: MissionView)
    ensures
        fixed_part(m).len() == FIXED_PART_SIZE,
        encoding(m).len() == encoded_len(m),
        fits(m) ==> encoding(m).len() <= MAX_RECORD_SIZE,
{
    lemma_auto_spec_u64_to_from_le_bytes();
    lemma_auto_spec_u16_to_from_le_bytes();
}

/// A text field that stands at `before.len()` is read back as the text,
/// and reading goes on right behind it.
proof fn lemma_text_at_field(before: Seq<u8>, text: Seq<char>, after: Seq<u8>)
    requires
        encode_utf8(text).len() <= u16::MAX,
    ensures
        text_at(before + text_field(text) + after, before.len() as int) == Some(
            (text, (before.len() + 2 + encode_utf8(text).len()) as int),
        ),
{
    lemma_auto_spec_u16_to_from_le_bytes();
    let raw = encode_utf8(text);
    let len = raw.len() as u16;
    let bytes = before + text_field(text) + after;
    let at = before.len() as int;
    assert(bytes.subrange(at, at + 2) =~= spec_u16_to_le_bytes(len));
    assert(bytes.subrange(at + 2, at + 2 + raw.len()) =~= raw);
    encode_utf8_valid_utf8(text);
    encode_utf8_decode_utf8(text);
}

/// Reading a record that was written for a mission gives the mission back.
pub proof fn decoding_inverts_encoding(m: MissionView)
    requires
        fits(m),
    ensures
        decoding(encoding(m)) == Some(m),
{
    lemma_auto_spec_u64_to_from_le_bytes();
    lemma_auto_spec_u16_to_from_le_bytes();
    encoding_takes_encoded_len(m);
    let bytes = encoding(m);
    let fixed = fixed_part(m);
    let name = text_field(m.mission_name);
    let destination = text_field(m.destination);
    let description = text_field(m.description);
    assert(bytes[0] == FORMAT_VERSION);
    assert(bytes.subrange(1, 9) =~= spec_u64_to_le_bytes(m.id));
    assert(bytes.subrange(9, 17) =~= spec_u64_to_le_bytes(m.launch_date));
    assert(bytes.subrange(17, 25) =~= spec_u64_to_le_bytes(m.estimated_arrival_date));
    let start = FIXED_PART_SIZE as int;
    let after_name = start + name.len();
    let after_destination = after_name + destination.len();
    assert(text_at(bytes, start) == Some((m.mission_name, after_name))) by {
        assert(bytes =~= fixed + name + (destination + description));
        lemma_text_at_field(fixed, m.mission_name, destination + description);
    }
    assert(text_at(bytes, after_name) == Some((m.destination, after_destination))) by {
        assert(bytes =~= (fixed + name) + destination + description);
        lemma_text_at_field(fixed + name, m.destination, description);
    }
    assert(text_at(bytes, after_destination) == Some((m.description, bytes.len() as int))) by {
        assert(bytes =~= (fixed + name + destination) + description + Seq::<u8>::empty());
        lemma_text_at_field(fixed + name + destination, m.description, Seq::<u8>::empty());
    }
}

/// A text field that was read at `at` is, written again, the bytes that
/// were read.
proof fn lemma_text_field_of_text_at(bytes: Seq<u8>, at: int)
    requires
        text_at(bytes, at) is Some,
    ensures
        ({
            let (text, end) = text_at(bytes, at)->Some_0;
            &&& at + 2 <= end <= bytes.len()
            &&& end == at + 2 + encode_utf8(text).len()
            &&& encode_utf8(text).len() <= u16::MAX
            &&& text_field(text) == bytes.subrange(at, end)
        }),
{
    lemma_auto_spec_u16_to_from_le_bytes();
    let (text, end) = text_at(bytes, at)->Some_0;
    let raw = bytes.subrange(at + 2, end);
    decode_utf8_encode_utf8(raw);
    let head = bytes.subrange(at, at + 2);
    assert(spec_u16_to_le_bytes(spec_u16_from_le_bytes(head)) == head);
    assert(text_field(text) =~= bytes.subrange(at, end));
}

/// Bytes that hold a mission are the record of that mission, and within the
/// size bound.
pub proof fn encoding_inverts_decoding(bytes: Seq<u8>)
    requires
        decoding(bytes) is Some,
    ensures
        encoding(decoding(bytes)->Some_0) == bytes,
        fits(decoding(bytes)->Some_0),
{
    lemma_auto_spec_u64_to_from_le_bytes();
    let m = decoding(bytes)->Some_0;
    let start = FIXED_PART_SIZE as int;
    let (_, after_name) = text_at(bytes, start)->Some_0;
    let (_, after_destination) = text_at(bytes, after_name)->Some_0;
    let (_, end) = text_at(bytes, after_destination)->Some_0;
    lemma_text_field_of_text_at(bytes, start);
    lemma_text_field_of_text_at(bytes, after_name);
    lemma_text_field_of_text_at(bytes, after_destination);
    let id = bytes.subrange(1, 9);
    let launch = bytes.subrange(9, 17);
    let arrival = bytes.subrange(17, 25);
    assert(spec_u64_to_le_bytes(spec_u64_from_le_bytes(id)) == id);
    assert(spec_u64_to_le_bytes(spec_u64_from_le_bytes(launch)) == launch);
    assert(spec_u64_to_le_bytes(spec_u64_from_le_bytes(arrival)) == arrival);
    assert(fixed_part(m) =~= bytes.subrange(0, start));
    assert(encoding(m) =~= bytes);
}

/// Bytes hold a mission if and only if they are its record and the record
/// is within the size bound: reading is the inverse of writing.
pub proof fn decoding_is_the_inverse(bytes: Seq<u8>, m: MissionView)
    ensures
        decoding(bytes) == Some(m) <==> fits(m) && encoding(m) == bytes,
{
    if decoding(bytes) == Some(m) {
        encoding_inverts_decoding(bytes);
    }
    if fits(m) && encoding(m) == bytes {
        decoding_inverts_encoding(m);
    }
}

/// `String::from_utf8` of std: the text that `bytes` spell, where they
/// are well-formed UTF-8, and nothing where they are not.
#[verifier::external_body]
fn string_from_utf8(bytes: Vec<u8>) -> (res: Option<String>)
    ensures
        res is Some <==> valid_utf8(bytes@),
        res matches Some(text) ==> text@ == decode_utf8(bytes@),
{
    String::from_utf8(bytes).ok()
}

/// Appends the field of `text` to `out`.
fn write_text(out: &mut Vec<u8>, text: &String)
    requires
        encode_utf8(text@).len() <= u16::MAX,
    ensures
        final(out)@ == old(out)@ + text_field(text@),
{
    let raw = text.as_str().as_bytes();
    let len: usize = raw.len();
    let mut head = u16_to_le_bytes(len as u16);
    let mut body = slice_to_vec(raw);
    out.append(&mut head);
    out.append(&mut body);
    assert(out@ =~= old(out)@ + text_field(text@));
}

/// Reads the text field that starts at `at`.
fn read_text(bytes: &[u8], at: usize) -> (res: Option<(String, usize)>)
    ensures
        match res {
            Some((text, end)) => text_at(bytes@, at as int) == Some((text@, end as int)),
            None => text_at(bytes@, at as int) is None,
        },
{
    let total: usize = bytes.len();
    if at > total || total - at < 2 {
        return None;
    }
    let start: usize = at + 2;
    let len: usize = u16_from_le_bytes(slice_subrange(bytes, at, start)) as usize;
    if total - start < len {
        return None;
    }
    let end: usize = start + len;
    match string_from_utf8(slice_to_vec(slice_subrange(bytes, start, end))) {
        Some(text) => Some((text, end)),
        None => None,
    }
}

/// Whether three texts leave a record within [`MAX_RECORD_SIZE`].
fn texts_fit(mission_name: &String, destination: &String, description: &String) -> (ok: bool)
    ensures
        ok == (FIXED_PART_SIZE + 6 + encode_utf8(mission_name@).len() + encode_utf8(
            destination@,
        ).len() + encode_utf8(description@).len() <= MAX_RECORD_SIZE),
{
    let name: usize = mission_name.as_str().as_bytes().len();
    let destination: usize = destination.as_str().as_bytes().len();
    let description: usize = description.as_str().as_bytes().len();
    let room: usize = MAX_RECORD_SIZE - FIXED_PART_SIZE - 6;
    name <= room && destination <= room - name && description <= room - name - destination
}

impl SpaceMissionPayload {
    /// Whether a mission that carries these texts has a record within
    /// [`MAX_RECORD_SIZE`].
    pub fn fits(&self) -> (ok: bool)
        ensures
            ok == payload_fits(self@),
    {
        texts_fit(&self.mission_name, &self.destination, &self.description)
    }
}

impl SpaceMission {
    /// Whether the record of this mission stays within [`MAX_RECORD_SIZE`].
    pub fn fits(&self) -> (ok: bool)
        ensures
            ok == fits(self@),
    {
        texts_fit(&self.mission_name, &self.destination, &self.description)
    }

    /// The record that holds this mission.
    pub fn to_bytes(&self) -> (bytes: Vec<u8>)
        requires
            fits(self@),
        ensures
            bytes@ == encoding(self@),
            bytes@.len() <= MAX_RECORD_SIZE,
    {
        proof {
            encoding_takes_encoded_len(self@);
        }
        let mut out: Vec<u8> = Vec::new();
        out.push(FORMAT_VERSION);
        let mut id = u64_to_le_bytes(self.id);
        let mut launch_date = u64_to_le_bytes(self.launch_date);
        let mut estimated_arrival_date = u64_to_le_bytes(self.estimated_arrival_date);
        out.append(&mut id);
        out.append(&mut launch_date);
        out.append(&mut estimated_arrival_date);
        assert(out@ =~= fixed_part(self@));
        write_text(&mut out, &self.mission_name);
        write_text(&mut out, &self.destination);
        write_text(&mut out, &self.description);
        out
    }

    /// The mission that the record `bytes` holds. Bytes that are no record
    /// are not admitted: the store only ever reads what it has written.
    /// [`SpaceMission::decode`] tells whether bytes are a record.
    pub fn from_bytes(bytes: &[u8]) -> (m: SpaceMission)
        requires
            decoding(bytes@) is Some,
        ensures
            decoding(bytes@) == Some(m@),
    {
        match SpaceMission::decode(bytes) {
            Some(m) => m,
            None => unreached(),
        }
    }

    /// The mission that `bytes` hold, or nothing where `bytes` is no record.
    pub fn decode(bytes: &[u8]) -> (res: Option<SpaceMission>)
        ensures
            match res {
                Some(m) => decoding(bytes@) == Some(m@),
                None => decoding(bytes@) is None,
            },
    {
        let total: usize = bytes.len();
        if total < FIXED_PART_SIZE || total > MAX_RECORD_SIZE || bytes[0] != FORMAT_VERSION {
            return None;
        }
        let id: u64 = u64_from_le_bytes(slice_subrange(bytes, 1, 9));
        let launch_date: u64 = u64_from_le_bytes(slice_subrange(bytes, 9, 17));
        let estimated_arrival_date: u64 = u64_from_le_bytes(slice_subrange(bytes, 17, 25));
        let (mission_name, after_name) = match read_text(bytes, FIXED_PART_SIZE) {
            Some(field) => field,
            None => { return None; },
        };
        let (destination, after_destination) = match read_text(bytes, after_name) {
            Some(field) => field,
            None => { return None; },
        };
        let (description, end) = match read_text(bytes, after_destination) {
            Some(field) => field,
            None => { return None; },
        };
        if end != total {
            return None;
        }
        Some(
            SpaceMission {
                id,
                mission_name,
                destination,
                launch_date,
                estimated_arrival_date,
                description,
            },
        )
    }
}

} // verus!

//! Stand-alone control frames: a magic number, a version, a type, flags, a length and a payload.

use serde_json::Value;
use vstd::prelude::*;
use vstd::slice::*;
use vstd::string::*;

use super::wire::{
    be_u16, be_u32, get_u16, get_u32, law_u16_reads_back, law_u32_reads_back, put_u16, put_u32,
    u16_at, u32_at,
};
use crate::json::{json_of, json_text, parsed_json, render, MAX_NESTING};

verus! {

pub const MAGIC: u32 = 0x1212_3001;

pub const VERSION: u8 = 1;

pub const TYPE_STATUS_REQ: u16 = 0x0001;

pub const TYPE_STATUS_RESP: u16 = 0x0002;

pub const HEADER_LEN: usize = 13;

#[derive(Debug)]
pub struct ControlFrame {
    pub msg_type: u16,
    pub payload: Vec<u8>,
}

impl Clone for ControlFrame {
    fn clone(&self) -> (copy: Self)
        ensures
            copy.msg_type == self.msg_type,
            copy.payload@ == self.payload@,
    {
        ControlFrame {
            msg_type: self.msg_type,
            payload: slice_to_vec(self.payload.as_slice()),
        }
    }
}

/// Why bytes are no control frame, or a payload makes none.
#[derive(Debug, Clone, Copy, PartialEq, Eq, Structural)]
pub enum FrameError {
    HeaderTooShort,
    InvalidMagic,
    UnsupportedVersion,
    LengthMismatch,
    InvalidPayload,
}

impl FrameError {
    pub open spec fn text(self) -> Seq<char> {
        match self {
            FrameError::HeaderTooShort => "control frame header too short"@,
            FrameError::InvalidMagic => "invalid control frame magic"@,
            FrameError::UnsupportedVersion => "unsupported control frame version"@,
            FrameError::LengthMismatch => "control frame payload length mismatch"@,
            FrameError::InvalidPayload => "invalid control frame payload"@,
        }
    }

    /// Whether bytes are missing; any other frame error is in the bytes that are there.
    pub fn is_unexpected_eof(&self) -> (is: bool)
        ensures
            is == (*self is HeaderTooShort),
    {
        matches!(self, FrameError::HeaderTooShort)
    }

    pub fn message(&self) -> (text: String)
        ensures
            text@ == self.text(),
    {
        match self {
            FrameError::HeaderTooShort => "control frame header too short".to_string(),
            FrameError::InvalidMagic => "invalid control frame magic".to_string(),
            FrameError::UnsupportedVersion => "unsupported control frame version".to_string(),
            FrameError::LengthMismatch => "control frame payload length mismatch".to_string(),
            FrameError::InvalidPayload => "invalid control frame payload".to_string(),
        }
    }
}

/// The low 32 bits of a length, which is all that a frame has room for.
pub open spec fn length_word(length: nat) -> u32 {
    (length % 0x1_0000_0000) as u32
}

/// The bytes of a frame.
pub open spec fn control_encoded(msg_type: u16, payload: Seq<u8>) -> Seq<u8> {
    be_u32(MAGIC) + seq![VERSION] + be_u16(msg_type) + be_u16(0) + be_u32(
        length_word(payload.len()),
    ) + payload
}

/// The type and the payload of the frame that the bytes are.
pub open spec fn control_decoded(bytes: Seq<u8>) -> Result<(u16, Seq<u8>), FrameError> {
    if bytes.len() < HEADER_LEN {
        Err(FrameError::HeaderTooShort)
    } else if u32_at(bytes, 0) != MAGIC {
        Err(FrameError::InvalidMagic)
    } else if bytes[4] != VERSION {
        Err(FrameError::UnsupportedVersion)
    } else if bytes.len() != HEADER_LEN + u32_at(bytes, 9) {
        Err(FrameError::LengthMismatch)
    } else {
        Ok((u16_at(bytes, 5) as u16, bytes.skip(HEADER_LEN as int)))
    }
}

/// Writes a frame.
pub fn encode_frame(msg_type: u16, payload: &[u8]) -> (bytes: Vec<u8>)
    ensures
        bytes@ == control_encoded(msg_type, payload@),
{
    let mut out: Vec<u8> = Vec::new();
    put_u32(&mut out, MAGIC);
    out.push(VERSION);
    put_u16(&mut out, msg_type);
    put_u16(&mut out, 0);
    put_u32(&mut out, (payload.len() as u64 % 0x1_0000_0000) as u32);
    out.extend_from_slice(payload);
    assert(out@ =~= control_encoded(msg_type, payload@));
    out
}

/// Reads the frame that the bytes are.
pub fn decode_frame(bytes: &[u8]) -> (frame: Result<ControlFrame, FrameError>)
    ensures
        match frame {
            Ok(frame) => control_decoded(bytes@) == Ok::<(u16, Seq<u8>), FrameError>(
                (frame.msg_type, frame.payload@),
            ),
            Err(error) => control_decoded(bytes@) == Err::<(u16, Seq<u8>), FrameError>(error),
        },
{
    if bytes.len() < HEADER_LEN {
        return Err(FrameError::HeaderTooShort);
    }
    if get_u32(bytes, 0) != MAGIC {
        return Err(FrameError::InvalidMagic);
    }
    if bytes[4] != VERSION {
        return Err(FrameError::UnsupportedVersion);
    }
    let msg_type = get_u16(bytes, 5);
    if bytes.len() as u64 != HEADER_LEN as u64 + get_u32(bytes, 9) as u64 {
        return Err(FrameError::LengthMismatch);
    }
    let payload = slice_to_vec(slice_subrange(bytes, HEADER_LEN, bytes.len()));
    assert(payload@ =~= bytes@.skip(HEADER_LEN as int));
    Ok(ControlFrame { msg_type, payload })
}

/// The frame that asks for the status.
pub fn encode_status_req() -> (bytes: Vec<u8>)
    ensures
        bytes@ == control_encoded(TYPE_STATUS_REQ, Seq::empty()),
{
    let payload: Vec<u8> = Vec::new();
    encode_frame(TYPE_STATUS_REQ, payload.as_slice())
}

/// The frame that answers with a status.
pub fn encode_status_resp(payload: &Value) -> (bytes: Result<Vec<u8>, FrameError>)
    ensures
        bytes is Ok,
        bytes->Ok_0@ == control_encoded(TYPE_STATUS_RESP, json_text(json_of(*payload))),
        json_of(*payload).exact_within(MAX_NESTING as nat) ==> parsed_json(
            json_text(json_of(*payload)),
        ) == Some(json_of(*payload)),
{
    match render(payload) {
        Ok(text) => Ok(encode_frame(TYPE_STATUS_RESP, text.as_slice())),
        Err(_) => Err(FrameError::InvalidPayload),
    }
}

proof fn lemma_encoded(msg_type: u16, payload: Seq<u8>)
    ensures
        ({
            let bytes = control_encoded(msg_type, payload);
            &&& bytes.len() == HEADER_LEN + payload.len()
            &&& u32_at(bytes, 0) == MAGIC
            &&& bytes[4] == VERSION
            &&& u16_at(bytes, 5) == msg_type
            &&& u32_at(bytes, 9) == length_word(payload.len())
            &&& bytes.skip(HEADER_LEN as int) == payload
        }),
{
    let bytes = control_encoded(msg_type, payload);
    let length = length_word(payload.len());
    let behind_magic = seq![VERSION] + be_u16(msg_type) + be_u16(0) + be_u32(length) + payload;
    law_u32_reads_back(MAGIC, Seq::empty(), behind_magic);
    assert(bytes =~= Seq::<u8>::empty() + be_u32(MAGIC) + behind_magic);
    let behind_type = be_u16(0) + be_u32(length) + payload;
    law_u16_reads_back(msg_type, be_u32(MAGIC) + seq![VERSION], behind_type);
    assert(bytes =~= (be_u32(MAGIC) + seq![VERSION]) + be_u16(msg_type) + behind_type);
    law_u32_reads_back(
        length,
        be_u32(MAGIC) + seq![VERSION] + be_u16(msg_type) + be_u16(0),
        payload,
    );
    assert(bytes.skip(HEADER_LEN as int) =~= payload);
}

/// A frame reads back as the type and the payload that it was made of, where the payload's length
/// fits in the frame.
pub proof fn law_control_frame_reads_back(msg_type: u16, payload: Seq<u8>)
    requires
        payload.len() < 0x1_0000_0000,
    ensures
        control_decoded(control_encoded(msg_type, payload)) == Ok::<(u16, Seq<u8>), FrameError>(
            (msg_type, payload),
        ),
{
    lemma_encoded(msg_type, payload);
}

/// A payload too long for the length that a frame has room for makes a frame that is rejected.
pub proof fn law_oversized_control_frame_is_rejected(msg_type: u16, payload: Seq<u8>)
    requires
        payload.len() >= 0x1_0000_0000,
    ensures
        control_decoded(control_encoded(msg_type, payload)) == Err::<(u16, Seq<u8>), FrameError>(
            FrameError::LengthMismatch,
        ),
{
    lemma_encoded(msg_type, payload);
}

/// A frame is thirteen bytes and the payload: the magic number, the version, the type, two zeros
/// and the length of the payload, numbers with the largest byte first.
pub proof fn law_control_frame_layout(msg_type: u16, payload: Seq<u8>)
    requires
        payload.len() < 0x1_0000_0000,
    ensures
        ({
            let bytes = control_encoded(msg_type, payload);
            &&& bytes.len() == 13 + payload.len()
            &&& bytes[0] == 0x12 && bytes[1] == 0x12 && bytes[2] == 0x30 && bytes[3] == 0x01
            &&& bytes[4] == 1
            &&& bytes[5] * 0x100 + bytes[6] == msg_type
            &&& bytes[7] == 0 && bytes[8] == 0
            &&& bytes[9] * 0x100_0000 + bytes[10] * 0x1_0000 + bytes[11] * 0x100 + bytes[12]
                == payload.len()
            &&& bytes.skip(13) == payload
        }),
{
    lemma_encoded(msg_type, payload);
    let bytes = control_encoded(msg_type, payload);
    assert(bytes[0] == be_u32(MAGIC)[0] && bytes[1] == be_u32(MAGIC)[1] && bytes[2] == be_u32(
        MAGIC,
    )[2] && bytes[3] == be_u32(MAGIC)[3]);
    assert(bytes[7] == be_u16(0)[0] && bytes[8] == be_u16(0)[1]);
}

/// Bytes are a frame if they start with the magic number and the version, and have a payload of the
/// length that they tell; what is wrong is told by the first of these that does not hold. Flags are
/// not looked at.
pub proof fn law_first_fault_of_a_frame_is_told(bytes: Seq<u8>)
    ensures
        ({
            let read = control_decoded(bytes);
            let magic = bytes[0] == 0x12 && bytes[1] == 0x12 && bytes[2] == 0x30 && bytes[3]
                == 0x01;
            let length = bytes[9] * 0x100_0000 + bytes[10] * 0x1_0000 + bytes[11] * 0x100
                + bytes[12];
            &&& (read matches Err(FrameError::HeaderTooShort)) <==> bytes.len() < 13
            &&& (read matches Err(FrameError::InvalidMagic)) <==> bytes.len() >= 13 && !magic
            &&& (read matches Err(FrameError::UnsupportedVersion)) <==> bytes.len() >= 13 && magic
                && bytes[4] != 1
            &&& (read matches Err(FrameError::LengthMismatch)) <==> bytes.len() >= 13 && magic
                && bytes[4] == 1 && bytes.len() != 13 + length
            &&& read is Ok <==> bytes.len() >= 13 && magic && bytes[4] == 1 && bytes.len() == 13
                + length
            &&& read matches Ok((msg_type, payload)) ==> msg_type == bytes[5] * 0x100 + bytes[6]
                && payload == bytes.skip(13)
        }),
{
}

} // verus!

//! The fixed-size binary message codec.
//!
//! Every message travels as one 7-byte frame, big-endian: two bytes of sender
//! id, one signal-kind tag, and four bytes carrying the 32-bit scalar payload
//! bit for bit.

use vstd::prelude::*;

verus! {

/// The purpose tag carried in every message frame. The election kinds are a
/// reserved extension point: the codec transports them, nothing here acts on
/// them.
#[derive(Clone, Copy, Debug, PartialEq, Eq, Structural)]
pub enum SignalType {
    Data,
    ElectionRequest,
    Nomination,
    Vote,
    Victory,
}

/// The wire tag of a signal kind, an integer 0 to 4.
pub open spec fn signal_tag(s: SignalType) -> u8 {
    match s {
        SignalType::Data => 0,
        SignalType::ElectionRequest => 1,
        SignalType::Nomination => 2,
        SignalType::Vote => 3,
        SignalType::Victory => 4,
    }
}

/// The signal kind denoted by a wire tag; meaningful only for tags 0 to 4.
pub open spec fn signal_of_tag(tag: u8) -> SignalType {
    if tag == 0 {
        SignalType::Data
    } else if tag == 1 {
        SignalType::ElectionRequest
    } else if tag == 2 {
        SignalType::Nomination
    } else if tag == 3 {
        SignalType::Vote
    } else {
        SignalType::Victory
    }
}

impl SignalType {
    /// The signal kind with the given wire tag, or `None` for a tag outside
    /// 0 to 4.
    pub fn from_u8(value: u8) -> (r: Option<SignalType>)
        ensures
            r is Some <==> value <= 4,
            r matches Some(s) ==> s == signal_of_tag(value),
    {
        match value {
            0 => Some(SignalType::Data),
            1 => Some(SignalType::ElectionRequest),
            2 => Some(SignalType::Nomination),
            3 => Some(SignalType::Vote),
            4 => Some(SignalType::Victory),
            _ => None,
        }
    }

    /// The wire tag of this signal kind.
    pub fn to_u8(&self) -> (r: u8)
        ensures
            r == signal_tag(*self),
            r <= 4,
    {
        match self {
            SignalType::Data => 0,
            SignalType::ElectionRequest => 1,
            SignalType::Nomination => 2,
            SignalType::Vote => 3,
            SignalType::Victory => 4,
        }
    }
}

/// One protocol message. `value_bits` holds the 32-bit scalar payload exactly
/// as it appears on the wire (an IEEE-754 binary32 bit pattern); the library
/// never interprets it numerically, so every bit pattern is a valid payload.
#[derive(Clone, Copy, Debug, PartialEq, Eq, Structural)]
pub struct Message {
    pub sender_id: u16,
    pub signal_type: SignalType,
    pub value_bits: u32,
}

/// Why a frame failed to decode.
#[derive(Clone, Copy, Debug, PartialEq, Eq, Structural)]
pub enum DecodeError {
    /// Fewer than 7 bytes were supplied.
    Truncated,
    /// The tag byte is outside 0 to 4.
    UnknownSignalKind,
}

/// The 7-byte frame that carries a message: big-endian sender id, the signal
/// tag, then the big-endian payload bits.
pub open spec fn spec_encode(m: Message) -> Seq<u8> {
    seq![
        ((m.sender_id >> 8) & 0xff) as u8,
        (m.sender_id & 0xff) as u8,
        signal_tag(m.signal_type),
        ((m.value_bits >> 24) & 0xff) as u8,
        ((m.value_bits >> 16) & 0xff) as u8,
        ((m.value_bits >> 8) & 0xff) as u8,
        (m.value_bits & 0xff) as u8,
    ]
}

/// What decoding a byte sequence yields: the unique message whose frame the
/// first 7 bytes are, or the error the bytes force.
pub open spec fn spec_decode(bytes: Seq<u8>) -> Result<Message, DecodeError> {
    if bytes.len() < 7 {
        Err(DecodeError::Truncated)
    } else if bytes[2] > 4 {
        Err(DecodeError::UnknownSignalKind)
    } else {
        Ok(
            Message {
                sender_id: (((bytes[0] as u16) << 8) | (bytes[1] as u16)) as u16,
                signal_type: signal_of_tag(bytes[2]),
                value_bits: (((bytes[3] as u32) << 24) | ((bytes[4] as u32) << 16) | ((
                bytes[5] as u32) << 8) | (bytes[6] as u32)) as u32,
            },
        )
    }
}

impl Message {
    /// Create a message.
    pub fn new(sender_id: u16, signal_type: SignalType, value_bits: u32) -> (r: Message)
        ensures
            r == (Message { sender_id, signal_type, value_bits }),
    {
        Message { sender_id, signal_type, value_bits }
    }

    /// Create a message from a raw signal tag, or `None` for a tag outside
    /// 0 to 4.
    pub fn new_with_u8_signal(sender_id: u16, signal_type: u8, value_bits: u32) -> (r: Option<
        Message,
    >)
        ensures
            r is Some <==> signal_type <= 4,
            r matches Some(m) ==> m == (Message {
                sender_id,
                signal_type: signal_of_tag(signal_type),
                value_bits,
            }),
    {
        match SignalType::from_u8(signal_type) {
            Some(st) => Some(Message { sender_id, signal_type: st, value_bits }),
            None => None,
        }
    }

    /// Serialize this message into its 7-byte frame.
    pub fn encode(&self) -> (r: Vec<u8>)
        ensures
            r@ == spec_encode(*self),
            r@.len() == 7,
    {
        let mut out: Vec<u8> = Vec::new();
        out.push(((self.sender_id >> 8) & 0xff) as u8);
        out.push((self.sender_id & 0xff) as u8);
        out.push(self.signal_type.to_u8());
        out.push(((self.value_bits >> 24) & 0xff) as u8);
        out.push(((self.value_bits >> 16) & 0xff) as u8);
        out.push(((self.value_bits >> 8) & 0xff) as u8);
        out.push((self.value_bits & 0xff) as u8);
        proof {
            assert(out@ =~= spec_encode(*self));
        }
        out
    }

    /// Decode a frame. Fails with `Truncated` on fewer than 7 bytes and with
    /// `UnknownSignalKind` on a tag byte outside 0 to 4; otherwise returns the
    /// message the first 7 bytes spell.
    pub fn decode(frame: &Vec<u8>) -> (r: Result<Message, DecodeError>)
        ensures
            r == spec_decode(frame@),
            r matches Err(DecodeError::Truncated) <==> frame@.len() < 7,
            r matches Err(DecodeError::UnknownSignalKind) <==> (frame@.len() >= 7 && frame@[2]
                > 4),
    {
        if frame.len() < 7 {
            return Err(DecodeError::Truncated);
        }
        let tag = frame[2];
        let signal_type = match SignalType::from_u8(tag) {
            Some(st) => st,
            None => {
                return Err(DecodeError::UnknownSignalKind);
            },
        };
        let sender_id = ((frame[0] as u16) << 8) | (frame[1] as u16);
        let value_bits = ((frame[3] as u32) << 24) | ((frame[4] as u32) << 16) | ((
        frame[5] as u32) << 8) | (frame[6] as u32);
        Ok(Message { sender_id, signal_type, value_bits })
    }
}

/// Encoding then decoding any message yields that message back, every field
/// equal and the payload bits exact.
pub proof fn lemma_codec_round_trip(m: Message)
    ensures
        spec_decode(spec_encode(m)) == Ok::<Message, DecodeError>(m),
{
    let f = spec_encode(m);
    assert(signal_tag(m.signal_type) <= 4);
    assert(f[2] == signal_tag(m.signal_type));
    assert(signal_of_tag(signal_tag(m.signal_type)) == m.signal_type);
    let id = m.sender_id;
    assert(((((((id >> 8) & 0xff) as u8) as u16) << 8) | ((((id & 0xff) as u8) as u16)) as u16)
        == id) by (bit_vector);
    let v = m.value_bits;
    assert((((((v >> 24) & 0xff) as u8 as u32) << 24) | ((((v >> 16) & 0xff) as u8 as u32) << 16)
        | ((((v >> 8) & 0xff) as u8 as u32) << 8) | (((v & 0xff) as u8 as u32))) == v)
        by (bit_vector);
}

} // verus!

//! Decoding byte buffers into protocol messages.
//!
//! Each variant has a fixed grammar: its tag byte, then its fixed-width
//! fields. Decoding dispatches on the first byte; an unknown first byte is
//! rejected as `UnrecognizedTag`, a buffer shorter than the matched variant's
//! fixed width as `Truncated`. Trailing bytes beyond a matched variant's
//! width are not consumed and are not an error. No byte pattern is rejected
//! for its value: every 4-byte group is accepted as some IEEE-754 bit
//! pattern and passed through unmodified.

use vstd::prelude::*;

use crate::packets::GamePacket;
use crate::packets::StatusUpdate;
use crate::packets::Vector3;
use crate::packets::le32;
use crate::packets::spec_encode;
use crate::packets::TAG_REGISTER;
use crate::packets::TAG_STATUS_UPDATE;
use crate::packets::TAG_END;
use crate::packets::TAG_DROP_PLAYER;
use crate::packets::TAG_INFORM;
use crate::packets::TAG_NEW_PLAYER;
use crate::packets::TAG_LAP_COMPLETE;
use crate::packets::TAG_RESTART;

verus! {

/// Why a buffer failed to decode.
#[derive(Clone, Copy, Debug, PartialEq, Eq, Structural)]
pub enum ParseError {
    /// The first byte is no known tag (or the buffer is empty).
    UnrecognizedTag,
    /// The first byte is a known tag but the body is shorter than that
    /// variant's fixed width.
    Truncated,
}

/// The 32-bit value whose little-endian bytes are `b0`, `b1`, `b2`, `b3`.
pub open spec fn le32_val(b0: u8, b1: u8, b2: u8, b3: u8) -> u32 {
    (b0 as u32) | ((b1 as u32) << 8) | ((b2 as u32) << 16) | ((b3 as u32) << 24)
}

/// Whether `t` is the tag byte of some variant.
pub open spec fn is_known_tag(t: u8) -> bool {
    ||| t == TAG_REGISTER
    ||| t == TAG_STATUS_UPDATE
    ||| t == TAG_END
    ||| t == TAG_DROP_PLAYER
    ||| t == TAG_INFORM
    ||| t == TAG_NEW_PLAYER
    ||| t == TAG_LAP_COMPLETE
    ||| t == TAG_RESTART
}

/// The fixed width of the variant with tag `t`, tag byte included.
pub open spec fn required_len(t: u8) -> nat
    recommends
        is_known_tag(t),
{
    if t == TAG_REGISTER || t == TAG_RESTART {
        1
    } else if t == TAG_STATUS_UPDATE {
        22
    } else {
        2
    }
}

/// The vector read from the 12 bytes of `b` starting at `at`.
pub open spec fn spec_decode_vector3(b: Seq<u8>, at: int) -> Vector3
    recommends
        0 <= at,
        at + 12 <= b.len(),
{
    Vector3 {
        x: le32_val(b[at], b[at + 1], b[at + 2], b[at + 3]),
        y: le32_val(b[at + 4], b[at + 5], b[at + 6], b[at + 7]),
        z: le32_val(b[at + 8], b[at + 9], b[at + 10], b[at + 11]),
    }
}

/// The message held in `b`, assuming its first byte is a known tag and `b`
/// reaches that variant's width.
pub open spec fn spec_decode_body(b: Seq<u8>) -> GamePacket
    recommends
        b.len() >= 1,
        is_known_tag(b[0]),
        b.len() >= required_len(b[0]),
{
    let t = b[0];
    if t == TAG_REGISTER {
        GamePacket::Register
    } else if t == TAG_RESTART {
        GamePacket::Restart
    } else if t == TAG_STATUS_UPDATE {
        GamePacket::StatusUpdate(
            StatusUpdate {
                player_id: b[1],
                position: spec_decode_vector3(b, 2),
                rotation: le32_val(b[14], b[15], b[16], b[17]),
                steering_angle: le32_val(b[18], b[19], b[20], b[21]),
            },
        )
    } else if t == TAG_END {
        GamePacket::End { player_id: b[1] }
    } else if t == TAG_DROP_PLAYER {
        GamePacket::DropPlayer { player_id: b[1] }
    } else if t == TAG_INFORM {
        GamePacket::Inform { player_id: b[1] }
    } else if t == TAG_LAP_COMPLETE {
        GamePacket::LapComplete { player_id: b[1] }
    } else {
        GamePacket::NewPlayer { player_id: b[1] }
    }
}

/// What decoding a whole buffer yields: the error policy, then the variant's
/// grammar.
pub open spec fn spec_decode(b: Seq<u8>) -> Result<GamePacket, ParseError> {
    if b.len() == 0 {
        Err(ParseError::Truncated)
    } else if !is_known_tag(b[0]) {
        Err(ParseError::UnrecognizedTag)
    } else if b.len() < required_len(b[0]) {
        Err(ParseError::Truncated)
    } else {
        Ok(spec_decode_body(b))
    }
}

/// What one variant's parser yields: it demands its own tag, and within that
/// tag behaves as whole-buffer decoding does.
pub open spec fn spec_parse_variant(b: Seq<u8>, t: u8) -> Result<GamePacket, ParseError>
    recommends
        is_known_tag(t),
{
    if b.len() == 0 {
        Err(ParseError::Truncated)
    } else if b[0] != t {
        Err(ParseError::UnrecognizedTag)
    } else {
        spec_decode(b)
    }
}

/// Reads the 32-bit little-endian value at `at`.
fn read_le32(input: &[u8], at: usize) -> (r: u32)
    requires
        at + 4 <= input@.len(),
    ensures
        r == le32_val(input[at as int], input[at + 1], input[at + 2], input[at + 3]),
{
    let b0 = input[at] as u32;
    let b1 = input[at + 1] as u32;
    let b2 = input[at + 2] as u32;
    let b3 = input[at + 3] as u32;
    b0 | (b1 << 8u32) | (b2 << 16u32) | (b3 << 24u32)
}

/// Parses the leading 4 bytes as one float field, yielded as its IEEE-754
/// bit pattern.
pub fn parse_float(input: &[u8]) -> (r: Result<u32, ParseError>)
    ensures
        input@.len() >= 4 ==> r == Ok::<u32, ParseError>(
            le32_val(input[0], input[1], input[2], input[3]),
        ),
        input@.len() < 4 ==> r == Err::<u32, ParseError>(ParseError::Truncated),
{
    if input.len() < 4 {
        Err(ParseError::Truncated)
    } else {
        Ok(read_le32(input, 0))
    }
}

/// Parses the leading 12 bytes as a position vector.
pub fn parse_vector3(input: &[u8]) -> (r: Result<Vector3, ParseError>)
    ensures
        input@.len() >= 12 ==> r == Ok::<Vector3, ParseError>(spec_decode_vector3(input@, 0)),
        input@.len() < 12 ==> r == Err::<Vector3, ParseError>(ParseError::Truncated),
{
    if input.len() < 12 {
        Err(ParseError::Truncated)
    } else {
        Ok(
            Vector3 {
                x: read_le32(input, 0),
                y: read_le32(input, 4),
                z: read_le32(input, 8),
            },
        )
    }
}

/// Parses a buffer that must hold a `Register` message.
pub fn parse_register(input: &[u8]) -> (r: Result<GamePacket, ParseError>)
    ensures
        r == spec_parse_variant(input@, TAG_REGISTER),
{
    if input.len() == 0 {
        Err(ParseError::Truncated)
    } else if input[0] != TAG_REGISTER {
        Err(ParseError::UnrecognizedTag)
    } else {
        Ok(GamePacket::Register)
    }
}

/// Parses a buffer that must hold a `Restart` message.
pub fn parse_restart(input: &[u8]) -> (r: Result<GamePacket, ParseError>)
    ensures
        r == spec_parse_variant(input@, TAG_RESTART),
{
    if input.len() == 0 {
        Err(ParseError::Truncated)
    } else if input[0] != TAG_RESTART {
        Err(ParseError::UnrecognizedTag)
    } else {
        Ok(GamePacket::Restart)
    }
}

/// Parses a buffer that must hold a `StatusUpdate` message.
pub fn parse_status_update(input: &[u8]) -> (r: Result<GamePacket, ParseError>)
    ensures
        r == spec_parse_variant(input@, TAG_STATUS_UPDATE),
{
    if input.len() == 0 {
        Err(ParseError::Truncated)
    } else if input[0] != TAG_STATUS_UPDATE {
        Err(ParseError::UnrecognizedTag)
    } else if input.len() < 22 {
        Err(ParseError::Truncated)
    } else {
        Ok(
            GamePacket::StatusUpdate(
                StatusUpdate {
                    player_id: input[1],
                    position: Vector3 {
                        x: read_le32(input, 2),
                        y: read_le32(input, 6),
                        z: read_le32(input, 10),
                    },
                    rotation: read_le32(input, 14),
                    steering_angle: read_le32(input, 18),
                },
            ),
        )
    }
}

/// Parses a buffer that must hold an `End` message.
pub fn parse_end_packet(input: &[u8]) -> (r: Result<GamePacket, ParseError>)
    ensures
        r == spec_parse_variant(input@, TAG_END),
{
    match parse_tag_and_id(input, TAG_END) {
        Ok(player_id) => Ok(GamePacket::End { player_id }),
        Err(e) => Err(e),
    }
}

/// Parses a buffer that must hold a `DropPlayer` message.
pub fn parse_drop_player(input: &[u8]) -> (r: Result<GamePacket, ParseError>)
    ensures
        r == spec_parse_variant(input@, TAG_DROP_PLAYER),
{
    match parse_tag_and_id(input, TAG_DROP_PLAYER) {
        Ok(player_id) => Ok(GamePacket::DropPlayer { player_id }),
        Err(e) => Err(e),
    }
}

/// Parses a buffer that must hold an `Inform` message.
pub fn parse_inform(input: &[u8]) -> (r: Result<GamePacket, ParseError>)
    ensures
        r == spec_parse_variant(input@, TAG_INFORM),
{
    match parse_tag_and_id(input, TAG_INFORM) {
        Ok(player_id) => Ok(GamePacket::Inform { player_id }),
        Err(e) => Err(e),
    }
}

/// Parses a buffer that must hold a `NewPlayer` message.
pub fn parse_new_player(input: &[u8]) -> (r: Result<GamePacket, ParseError>)
    ensures
        r == spec_parse_variant(input@, TAG_NEW_PLAYER),
{
    match parse_tag_and_id(input, TAG_NEW_PLAYER) {
        Ok(player_id) => Ok(GamePacket::NewPlayer { player_id }),
        Err(e) => Err(e),
    }
}

/// Parses a buffer that must hold a `LapComplete` message.
pub fn parse_lap_complete(input: &[u8]) -> (r: Result<GamePacket, ParseError>)
    ensures
        r == spec_parse_variant(input@, TAG_LAP_COMPLETE),
{
    match parse_tag_and_id(input, TAG_LAP_COMPLETE) {
        Ok(player_id) => Ok(GamePacket::LapComplete { player_id }),
        Err(e) => Err(e),
    }
}

/// The shared grammar of the one-byte-payload variants: the given tag, then
/// a player id.
fn parse_tag_and_id(input: &[u8], t: u8) -> (r: Result<u8, ParseError>)
    requires
        is_known_tag(t),
        required_len(t) == 2,
    ensures
        input@.len() == 0 ==> r == Err::<u8, ParseError>(ParseError::Truncated),
        input@.len() >= 1 && input[0] != t ==> r == Err::<u8, ParseError>(
            ParseError::UnrecognizedTag,
        ),
        input@.len() == 1 && input[0] == t ==> r == Err::<u8, ParseError>(ParseError::Truncated),
        input@.len() >= 2 && input[0] == t ==> r == Ok::<u8, ParseError>(input[1]),
{
    if input.len() == 0 {
        Err(ParseError::Truncated)
    } else if input[0] != t {
        Err(ParseError::UnrecognizedTag)
    } else if input.len() < 2 {
        Err(ParseError::Truncated)
    } else {
        Ok(input[1])
    }
}

/// Decodes a whole buffer: dispatches on the first byte to the variant's
/// parser. Never panics and never reads out of bounds; every failure is a
/// `ParseError`.
pub fn parse_packet(input: &[u8]) -> (r: Result<GamePacket, ParseError>)
    ensures
        r == spec_decode(input@),
{
    if input.len() == 0 {
        return Err(ParseError::Truncated);
    }
    let t = input[0];
    if t == TAG_REGISTER {
        parse_register(input)
    } else if t == TAG_STATUS_UPDATE {
        parse_status_update(input)
    } else if t == TAG_END {
        parse_end_packet(input)
    } else if t == TAG_DROP_PLAYER {
        parse_drop_player(input)
    } else if t == TAG_INFORM {
        parse_inform(input)
    } else if t == TAG_NEW_PLAYER {
        parse_new_player(input)
    } else if t == TAG_LAP_COMPLETE {
        parse_lap_complete(input)
    } else if t == TAG_RESTART {
        parse_restart(input)
    } else {
        Err(ParseError::UnrecognizedTag)
    }
}

/// Reading four little-endian bytes back gives the value they came from.
proof fn lemma_le32_roundtrip(v: u32)
    ensures
        le32_val(le32(v)[0], le32(v)[1], le32(v)[2], le32(v)[3]) == v,
{
    assert((((v & 0xff) as u8) as u32) | (((((v >> 8) & 0xff) as u8) as u32) << 8) | (((((v
        >> 16) & 0xff) as u8) as u32) << 16) | (((((v >> 24) & 0xff) as u8) as u32) << 24) == v)
        by (bit_vector);
}

/// Round-trip: decoding the encoding of any message gives that message back.
pub proof fn lemma_round_trip(m: GamePacket)
    ensures
        spec_decode(spec_encode(m)) == Ok::<GamePacket, ParseError>(m),
{
    let b = spec_encode(m);
    match m {
        GamePacket::StatusUpdate(u) => {
            assert(b[0] == TAG_STATUS_UPDATE);
            assert(b.len() == 22);
            lemma_le32_roundtrip(u.position.x);
            lemma_le32_roundtrip(u.position.y);
            lemma_le32_roundtrip(u.position.z);
            lemma_le32_roundtrip(u.rotation);
            lemma_le32_roundtrip(u.steering_angle);
            assert(b[2] == le32(u.position.x)[0] && b[3] == le32(u.position.x)[1] && b[4] == le32(
                u.position.x,
            )[2] && b[5] == le32(u.position.x)[3]);
            assert(b[6] == le32(u.position.y)[0] && b[7] == le32(u.position.y)[1] && b[8] == le32(
                u.position.y,
            )[2] && b[9] == le32(u.position.y)[3]);
            assert(b[10] == le32(u.position.z)[0] && b[11] == le32(u.position.z)[1] && b[12]
                == le32(u.position.z)[2] && b[13] == le32(u.position.z)[3]);
            assert(b[14] == le32(u.rotation)[0] && b[15] == le32(u.rotation)[1] && b[16] == le32(
                u.rotation,
            )[2] && b[17] == le32(u.rotation)[3]);
            assert(b[18] == le32(u.steering_angle)[0] && b[19] == le32(u.steering_angle)[1] && b[20]
                == le32(u.steering_angle)[2] && b[21] == le32(u.steering_angle)[3]);
            assert(spec_decode_body(b) == m);
        },
        _ => {},
    }
}

/// A buffer whose first byte is no known tag is rejected as
/// `UnrecognizedTag`, whatever follows it.
pub proof fn lemma_unknown_tag_rejected(b: Seq<u8>)
    requires
        b.len() > 0,
        !is_known_tag(b[0]),
    ensures
        spec_decode(b) == Err::<GamePacket, ParseError>(ParseError::UnrecognizedTag),
{
}

/// A buffer whose first byte is a known tag but which is shorter than that
/// variant's fixed width is rejected as `Truncated`.
pub proof fn lemma_truncated_rejected(b: Seq<u8>)
    requires
        b.len() > 0,
        is_known_tag(b[0]),
        b.len() < required_len(b[0]),
    ensures
        spec_decode(b) == Err::<GamePacket, ParseError>(ParseError::Truncated),
{
}

} // verus!

//! Message types of the wire protocol and their encoding.
//!
//! Every message is one tag byte followed by fixed-width little-endian
//! fields. Float-valued fields (coordinates, rotation, steering angle) travel
//! on the wire as 4-byte IEEE-754 bit patterns; the codec never interprets
//! them, so this library holds each such field as its 32-bit pattern and
//! passes it through unmodified (NaN and infinity included).

use vstd::prelude::*;

verus! {

pub const TAG_REGISTER: u8 = 0;
pub const TAG_STATUS_UPDATE: u8 = 1;
pub const TAG_END: u8 = 3;
pub const TAG_DROP_PLAYER: u8 = 4;
pub const TAG_INFORM: u8 = 5;
pub const TAG_NEW_PLAYER: u8 = 6;
pub const TAG_LAP_COMPLETE: u8 = 7;
pub const TAG_RESTART: u8 = 8;

/// The little-endian byte sequence of a 32-bit value, least significant
/// byte first.
pub open spec fn le32(v: u32) -> Seq<u8> {
    seq![
        (v & 0xff) as u8,
        ((v >> 8) & 0xff) as u8,
        ((v >> 16) & 0xff) as u8,
        ((v >> 24) & 0xff) as u8,
    ]
}

/// A position in space. Each field holds the IEEE-754 bit pattern of one
/// single-precision coordinate.
#[derive(Clone, Copy, Debug, PartialEq, Eq, Structural)]
pub struct Vector3 {
    pub x: u32,
    pub y: u32,
    pub z: u32,
}

impl Vector3 {
    pub open spec fn spec_bytes(self) -> Seq<u8> {
        le32(self.x) + le32(self.y) + le32(self.z)
    }

    pub fn new(x: u32, y: u32, z: u32) -> (v: Vector3)
        ensures
            v == (Vector3 { x, y, z }),
    {
        Vector3 { x, y, z }
    }

    pub fn to_binary_data(&self) -> (r: Vec<u8>)
        ensures
            r@ == self.spec_bytes(),
    {
        let mut r: Vec<u8> = Vec::new();
        push_le32(&mut r, self.x);
        push_le32(&mut r, self.y);
        push_le32(&mut r, self.z);
        proof {
            assert(r@ =~= self.spec_bytes());
        }
        r
    }
}

/// A player's transform report: its own id, position, rotation and steering
/// angle, the latter three as IEEE-754 bit patterns.
#[derive(Clone, Copy, Debug, PartialEq, Eq, Structural)]
pub struct StatusUpdate {
    pub player_id: u8,
    pub position: Vector3,
    pub rotation: u32,
    pub steering_angle: u32,
}

impl StatusUpdate {
    /// The full encoding of a status update, leading tag byte included.
    pub open spec fn spec_bytes(self) -> Seq<u8> {
        seq![TAG_STATUS_UPDATE, self.player_id] + self.position.spec_bytes()
            + le32(self.rotation) + le32(self.steering_angle)
    }

    pub fn new(player_id: u8, position: Vector3, rotation: u32, steering_angle: u32) -> (u:
        StatusUpdate)
        ensures
            u == (StatusUpdate { player_id, position, rotation, steering_angle }),
    {
        StatusUpdate { player_id, position, rotation, steering_angle }
    }

    pub fn to_binary_data(&self) -> (r: Vec<u8>)
        ensures
            r@ == self.spec_bytes(),
    {
        let mut r: Vec<u8> = Vec::new();
        r.push(TAG_STATUS_UPDATE);
        r.push(self.player_id);
        push_le32(&mut r, self.position.x);
        push_le32(&mut r, self.position.y);
        push_le32(&mut r, self.position.z);
        push_le32(&mut r, self.rotation);
        push_le32(&mut r, self.steering_angle);
        proof {
            assert(r@ =~= self.spec_bytes());
        }
        r
    }
}

/// One message of the protocol, discriminated on the wire by its leading tag
/// byte.
#[derive(Clone, Copy, Debug, PartialEq, Eq, Structural)]
pub enum GamePacket {
    /// Client to server: "I want to join." No payload.
    Register,
    /// Server to client: the id the server assigned to the receiver.
    Inform { player_id: u8 },
    /// Server to client: a peer with this id joined.
    NewPlayer { player_id: u8 },
    /// Client to server: the player with this id crossed the lap line.
    LapComplete { player_id: u8 },
    /// Bidirectional: a transform report, relayed to the other players.
    StatusUpdate(StatusUpdate),
    /// Server to client: a player won, the race restarts.
    Restart,
    /// Server to client: the peer with this id disconnected.
    DropPlayer { player_id: u8 },
    /// Client to server: explicit disconnect request.
    End { player_id: u8 },
}

/// The one byte encoding of each message: a tag byte, then the variant's
/// fixed-width little-endian fields.
pub open spec fn spec_encode(m: GamePacket) -> Seq<u8> {
    match m {
        GamePacket::Register => seq![TAG_REGISTER],
        GamePacket::Inform { player_id } => seq![TAG_INFORM, player_id],
        GamePacket::NewPlayer { player_id } => seq![TAG_NEW_PLAYER, player_id],
        GamePacket::LapComplete { player_id } => seq![TAG_LAP_COMPLETE, player_id],
        GamePacket::StatusUpdate(u) => u.spec_bytes(),
        GamePacket::Restart => seq![TAG_RESTART],
        GamePacket::DropPlayer { player_id } => seq![TAG_DROP_PLAYER, player_id],
        GamePacket::End { player_id } => seq![TAG_END, player_id],
    }
}

impl GamePacket {
    /// Encoding is total: every representable message has exactly one byte
    /// encoding, and encoding never fails.
    pub fn to_binary_data(&self) -> (r: Vec<u8>)
        ensures
            r@ == spec_encode(*self),
    {
        match self {
            GamePacket::Register => tag_only(TAG_REGISTER),
            GamePacket::Inform { player_id } => tag_and_id(TAG_INFORM, *player_id),
            GamePacket::NewPlayer { player_id } => tag_and_id(TAG_NEW_PLAYER, *player_id),
            GamePacket::LapComplete { player_id } => tag_and_id(TAG_LAP_COMPLETE, *player_id),
            GamePacket::StatusUpdate(u) => u.to_binary_data(),
            GamePacket::Restart => tag_only(TAG_RESTART),
            GamePacket::DropPlayer { player_id } => tag_and_id(TAG_DROP_PLAYER, *player_id),
            GamePacket::End { player_id } => tag_and_id(TAG_END, *player_id),
        }
    }
}

/// Appends the four little-endian bytes of `v`.
pub fn push_le32(out: &mut Vec<u8>, v: u32)
    ensures
        final(out)@ == old(out)@ + le32(v),
{
    out.push((v & 0xff) as u8);
    out.push(((v >> 8) & 0xff) as u8);
    out.push(((v >> 16) & 0xff) as u8);
    out.push(((v >> 24) & 0xff) as u8);
    proof {
        assert(out@ =~= old(out)@ + le32(v));
    }
}

fn tag_only(tag: u8) -> (r: Vec<u8>)
    ensures
        r@ == seq![tag],
{
    let mut r: Vec<u8> = Vec::new();
    r.push(tag);
    proof {
        assert(r@ =~= seq![tag]);
    }
    r
}

fn tag_and_id(tag: u8, player_id: u8) -> (r: Vec<u8>)
    ensures
        r@ == seq![tag, player_id],
{
    let mut r: Vec<u8> = Vec::new();
    r.push(tag);
    r.push(player_id);
    proof {
        assert(r@ =~= seq![tag, player_id]);
    }
    r
}

} // verus!

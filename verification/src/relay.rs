//! The session registry and relay state machine.
//!
//! The registry is an ordered collection of player sessions, ordered by
//! registration; ids grow along it, so the last session carries the greatest
//! id. Each decoded message, together with its sender's endpoint, yields a
//! state transition and a list of (destination, message) pairs, in the order
//! the server sends them. The transport around the library performs the
//! sends; a failed send rolls nothing back, so the transition itself has no
//! failure mode.

use vstd::prelude::*;

use crate::packets::GamePacket;
use crate::packets::StatusUpdate;

verus! {

/// A transport endpoint as the relay sees it: enough to compare two
/// endpoints and to say where an outbound message goes. `ip` holds the
/// 128-bit address (an IPv4 address in its IPv6-mapped form), `port` the
/// port.
#[derive(Clone, Copy, Debug, PartialEq, Eq, Structural)]
pub struct Address {
    pub ip: u128,
    pub port: u16,
}

/// One connected player's session: its server-assigned id, where to reach
/// it, and how many laps it has completed.
#[derive(Clone, Copy, Debug, PartialEq, Eq, Structural)]
pub struct PlayerConnection {
    pub player_id: u8,
    pub address: Address,
    pub laps: u32,
}

impl PlayerConnection {
    pub fn new(player_id: u8, address: Address) -> (c: PlayerConnection)
        ensures
            c == (PlayerConnection { player_id, address, laps: 0u32 }),
    {
        PlayerConnection { player_id, address, laps: 0 }
    }
}

/// The registry's invariant: ids strictly grow along the registration
/// order. This makes every id unique and the last session's id the greatest.
pub open spec fn ids_increasing(s: Seq<PlayerConnection>) -> bool {
    forall|i: int, j: int|
        0 <= i < j < s.len() ==> s[i].player_id < s[j].player_id
}

/// The id the next `Register` is assigned: one past the greatest live id,
/// which under the registry invariant is the last session's id; 1 on an
/// empty registry.
pub open spec fn next_player_id(s: Seq<PlayerConnection>) -> int {
    if s.len() == 0 {
        1
    } else {
        s.last().player_id + 1
    }
}

/// Whether some session carries this id.
pub open spec fn has_id(s: Seq<PlayerConnection>, id: u8) -> bool {
    exists|i: int| 0 <= i < s.len() && s[i].player_id == id
}

/// The position of the session carrying this id (unique under the registry
/// invariant).
pub open spec fn index_of_id(s: Seq<PlayerConnection>, id: u8) -> int {
    choose|i: int| 0 <= i < s.len() && s[i].player_id == id
}

/// The registry after a `Register` from `src`.
pub open spec fn register_state(s: Seq<PlayerConnection>, src: Address) -> Seq<PlayerConnection> {
    s.push(
        PlayerConnection { player_id: next_player_id(s) as u8, address: src, laps: 0 },
    )
}

/// What a `Register` from `src` emits: `Inform` with the fresh id to the
/// newcomer, then for each prior session in order, that session's id to the
/// newcomer and the fresh id to that session.
pub open spec fn register_emits(s: Seq<PlayerConnection>, src: Address) -> Seq<
    (Address, GamePacket),
> {
    seq![(src, GamePacket::Inform { player_id: next_player_id(s) as u8 })] + Seq::new(
        2 * s.len(),
        |k: int|
            if k % 2 == 0 {
                (src, GamePacket::NewPlayer { player_id: s[k / 2].player_id })
            } else {
                (
                    s[k / 2].address,
                    GamePacket::NewPlayer { player_id: next_player_id(s) as u8 },
                )
            },
    )
}

/// What a `StatusUpdate` from `src` emits: the same payload to every session
/// whose endpoint differs from `src`, in registry order.
pub open spec fn status_emits(s: Seq<PlayerConnection>, src: Address, u: StatusUpdate) -> Seq<
    (Address, GamePacket),
>
    decreases s.len(),
{
    if s.len() == 0 {
        seq![]
    } else {
        status_emits(s.drop_last(), src, u) + if s.last().address != src {
            seq![(s.last().address, GamePacket::StatusUpdate(u))]
        } else {
            seq![]
        }
    }
}

/// The registry with every session carrying this id taken out, order kept.
pub open spec fn remove_id(s: Seq<PlayerConnection>, id: u8) -> Seq<PlayerConnection>
    decreases s.len(),
{
    if s.len() == 0 {
        seq![]
    } else {
        remove_id(s.drop_last(), id) + if s.last().player_id != id {
            seq![s.last()]
        } else {
            seq![]
        }
    }
}

/// One copy of `m` to every session of `s`, in registry order.
pub open spec fn broadcast_emits(s: Seq<PlayerConnection>, m: GamePacket) -> Seq<
    (Address, GamePacket),
> {
    Seq::new(s.len(), |i: int| (s[i].address, m))
}

/// The registry after a `LapComplete` for a live id: that session's lap
/// count grows by one, everything else stays.
pub open spec fn lap_state(s: Seq<PlayerConnection>, id: u8) -> Seq<PlayerConnection>
    recommends
        has_id(s, id),
{
    let k = index_of_id(s, id);
    s.update(
        k,
        PlayerConnection {
            player_id: s[k].player_id,
            address: s[k].address,
            laps: (s[k].laps + 1) as u32,
        },
    )
}

/// The registry after one message. Messages that only the server may send,
/// arriving from a client, change nothing; so do `LapComplete` and `End`
/// naming an id nobody carries.
pub open spec fn spec_step_state(
    s: Seq<PlayerConnection>,
    src: Address,
    m: GamePacket,
    win_lap_count: u32,
) -> Seq<PlayerConnection> {
    match m {
        GamePacket::Register => register_state(s, src),
        GamePacket::LapComplete { player_id } => if has_id(s, player_id) {
            lap_state(s, player_id)
        } else {
            s
        },
        GamePacket::End { player_id } => if has_id(s, player_id) {
            remove_id(s, player_id)
        } else {
            s
        },
        _ => s,
    }
}

/// What one message makes the server send, in order. A `LapComplete` that
/// lifts the session's lap count to the win threshold broadcasts `Restart`
/// to every session (the winner included); an `End` naming a live id sends
/// `DropPlayer` to every remaining session; everything else a client may
/// send emits as `register_emits` and `status_emits` say; the rest emits
/// nothing.
pub open spec fn spec_step_emits(
    s: Seq<PlayerConnection>,
    src: Address,
    m: GamePacket,
    win_lap_count: u32,
) -> Seq<(Address, GamePacket)> {
    match m {
        GamePacket::Register => register_emits(s, src),
        GamePacket::StatusUpdate(u) => status_emits(s, src, u),
        GamePacket::LapComplete { player_id } => if has_id(s, player_id) && s[index_of_id(
            s,
            player_id,
        )].laps + 1 >= win_lap_count {
            broadcast_emits(lap_state(s, player_id), GamePacket::Restart)
        } else {
            seq![]
        },
        GamePacket::End { player_id } => if has_id(s, player_id) {
            broadcast_emits(
                remove_id(s, player_id),
                GamePacket::DropPlayer { player_id },
            )
        } else {
            seq![]
        },
        _ => seq![],
    }
}

/// What machine limits demand of a step: a fresh id must fit in a byte, and
/// a lap count must have room to grow. Neither binds until 255 players have
/// registered in one run, or one session has completed four billion laps.
pub open spec fn can_step(s: Seq<PlayerConnection>, m: GamePacket) -> bool {
    match m {
        GamePacket::Register => next_player_id(s) <= 255,
        GamePacket::LapComplete { player_id } => has_id(s, player_id) ==> s[index_of_id(
            s,
            player_id,
        )].laps < u32::MAX,
        _ => true,
    }
}

/// Whether `p` is one of the sessions of `s`.
pub open spec fn session_of(s: Seq<PlayerConnection>, p: PlayerConnection) -> bool {
    exists|j: int| 0 <= j < s.len() && s[j] == p
}

/// Under the registry invariant at most one session carries any id, so the
/// chosen index is the only one.
pub proof fn lemma_index_of_id_unique(s: Seq<PlayerConnection>, id: u8, i: int)
    requires
        ids_increasing(s),
        0 <= i < s.len(),
        s[i].player_id == id,
    ensures
        has_id(s, id),
        index_of_id(s, id) == i,
{
    assert(has_id(s, id));
    let k = index_of_id(s, id);
    assert(0 <= k < s.len() && s[k].player_id == id);
    if k < i {
        assert(s[k].player_id < s[i].player_id);
    } else if i < k {
        assert(s[i].player_id < s[k].player_id);
    }
}

/// Taking the sessions with one id out keeps the invariant; what stays
/// carries another id and was there before.
proof fn lemma_remove_id_increasing(s: Seq<PlayerConnection>, id: u8)
    requires
        ids_increasing(s),
    ensures
        ids_increasing(remove_id(s, id)),
        forall|i: int|
            0 <= i < remove_id(s, id).len() ==> #[trigger] remove_id(s, id)[i].player_id != id,
        forall|i: int|
            0 <= i < remove_id(s, id).len() ==> session_of(s, #[trigger] remove_id(s, id)[i]),
    decreases s.len(),
{
    if s.len() == 0 {
    } else {
        let s1 = s.drop_last();
        assert(ids_increasing(s1)) by {
            assert forall|i: int, j: int| 0 <= i < j < s1.len() implies s1[i].player_id
                < s1[j].player_id by {
                assert(s1[i] == s[i] && s1[j] == s[j]);
            }
        }
        lemma_remove_id_increasing(s1, id);
        let r1 = remove_id(s1, id);
        assert forall|i: int| 0 <= i < r1.len() implies session_of(s, #[trigger] r1[i]) by {
            let j = choose|j: int| 0 <= j < s1.len() && s1[j] == r1[i];
            assert(s[j] == r1[i]);
        }
        if s.last().player_id != id {
            let r = remove_id(s, id);
            assert(r == r1 + seq![s.last()]);
            assert forall|i: int| 0 <= i < r1.len() implies r1[i].player_id
                < s.last().player_id by {
                let j = choose|j: int| 0 <= j < s1.len() && s1[j] == r1[i];
                assert(s[j] == r1[i]);
                assert(s[j].player_id < s[s.len() - 1].player_id);
            }
            assert forall|i: int, j: int| 0 <= i < j < r.len() implies r[i].player_id
                < r[j].player_id by {
                if j < r1.len() {
                    assert(r[i] == r1[i] && r[j] == r1[j]);
                } else {
                    assert(r[j] == s.last());
                    assert(r[i] == r1[i]);
                }
            }
            assert forall|i: int| 0 <= i < r.len() implies session_of(s, #[trigger] r[i]) by {
                if i < r1.len() {
                    assert(session_of(s, r1[i]));
                    assert(r[i] == r1[i]);
                } else {
                    assert(s[s.len() - 1] == r[i]);
                }
            }
        } else {
            assert(remove_id(s, id) =~= r1);
        }
    }
}

/// Registration allocates a fresh id, strictly greater than every live id:
/// an id is never reused while any higher id is live. On an empty registry
/// the first id is 1, and the newcomer's session starts at zero laps.
pub proof fn lemma_register_allocates_fresh_id(
    s: Seq<PlayerConnection>,
    src: Address,
    win_lap_count: u32,
)
    requires
        ids_increasing(s),
        next_player_id(s) <= 255,
    ensures
        spec_step_state(s, src, GamePacket::Register, win_lap_count) == register_state(s, src),
        register_state(s, src).len() == s.len() + 1,
        register_state(s, src).last().player_id == next_player_id(s),
        register_state(s, src).last().address == src,
        register_state(s, src).last().laps == 0,
        forall|i: int| 0 <= i < s.len() ==> (#[trigger] s[i]).player_id < next_player_id(s),
        s.len() == 0 ==> next_player_id(s) == 1,
{
    assert forall|i: int| 0 <= i < s.len() implies (#[trigger] s[i]).player_id < next_player_id(
        s,
    ) by {
        if i < s.len() - 1 {
            assert(s[i].player_id < s[s.len() - 1].player_id);
        }
    }
}

/// The relayed copies go to every session whose endpoint differs from the
/// sender's and never back to the sender.
proof fn lemma_status_emits_props(s: Seq<PlayerConnection>, src: Address, u: StatusUpdate)
    ensures
        forall|k: int|
            0 <= k < status_emits(s, src, u).len() ==> (#[trigger] status_emits(s, src, u)[k]).0
                != src && status_emits(s, src, u)[k].1 == GamePacket::StatusUpdate(u),
        forall|i: int|
            0 <= i < s.len() && (#[trigger] s[i]).address != src ==> status_emits(
                s,
                src,
                u,
            ).contains((s[i].address, GamePacket::StatusUpdate(u))),
    decreases s.len(),
{
    if s.len() > 0 {
        lemma_status_emits_props(s.drop_last(), src, u);
        let e1 = status_emits(s.drop_last(), src, u);
        let e = status_emits(s, src, u);
        assert forall|k: int| 0 <= k < e.len() implies (#[trigger] e[k]).0 != src && e[k].1
            == GamePacket::StatusUpdate(u) by {
            if k < e1.len() {
                assert(e[k] == e1[k]);
            }
        }
        assert forall|i: int| 0 <= i < s.len() && (#[trigger] s[i]).address != src implies
            e.contains((s[i].address, GamePacket::StatusUpdate(u))) by {
            let x = (s[i].address, GamePacket::StatusUpdate(u));
            if i < s.len() - 1 {
                assert(s.drop_last()[i] == s[i]);
                assert(e1.contains(x));
                let k = choose|k: int| 0 <= k < e1.len() && e1[k] == x;
                assert(e[k] == x);
            } else {
                assert(e[e1.len() as int] == x);
            }
        }
    }
}

/// A status update is relayed to every other registered endpoint, never back
/// to its sender, and mutates nothing.
pub proof fn lemma_status_update_relayed(
    s: Seq<PlayerConnection>,
    src: Address,
    u: StatusUpdate,
    win_lap_count: u32,
)
    ensures
        spec_step_state(s, src, GamePacket::StatusUpdate(u), win_lap_count) == s,
        forall|k: int|
            0 <= k < spec_step_emits(s, src, GamePacket::StatusUpdate(u), win_lap_count).len()
                ==> (#[trigger] spec_step_emits(
                s,
                src,
                GamePacket::StatusUpdate(u),
                win_lap_count,
            )[k]).0 != src && spec_step_emits(s, src, GamePacket::StatusUpdate(u), win_lap_count)[k].1
                == GamePacket::StatusUpdate(u),
        forall|i: int|
            0 <= i < s.len() && (#[trigger] s[i]).address != src ==> spec_step_emits(
                s,
                src,
                GamePacket::StatusUpdate(u),
                win_lap_count,
            ).contains((s[i].address, GamePacket::StatusUpdate(u))),
{
    lemma_status_emits_props(s, src, u);
}

/// Every session that carries another id survives the removal.
proof fn lemma_remove_id_keeps_others(s: Seq<PlayerConnection>, id: u8)
    ensures
        forall|i: int|
            0 <= i < s.len() && (#[trigger] s[i]).player_id != id ==> session_of(
                remove_id(s, id),
                s[i],
            ),
    decreases s.len(),
{
    if s.len() > 0 {
        lemma_remove_id_keeps_others(s.drop_last(), id);
        let r1 = remove_id(s.drop_last(), id);
        let r = remove_id(s, id);
        assert forall|i: int| 0 <= i < s.len() && (#[trigger] s[i]).player_id != id implies
            session_of(r, s[i]) by {
            if i < s.len() - 1 {
                assert(s.drop_last()[i] == s[i]);
                assert(session_of(r1, s[i]));
                let j = choose|j: int| 0 <= j < r1.len() && r1[j] == s[i];
                assert(r[j] == s[i]);
            } else {
                assert(r[r1.len() as int] == s[i]);
            }
        }
    }
}

/// `End` for a live id removes that session and no other: afterwards nobody
/// carries the id, every other session survives, and one `DropPlayer` goes
/// to each remaining session and to no other address. `End` for an absent
/// id changes nothing and emits nothing.
pub proof fn lemma_end_drops_session(
    s: Seq<PlayerConnection>,
    src: Address,
    id: u8,
    win_lap_count: u32,
)
    requires
        ids_increasing(s),
    ensures
        !has_id(spec_step_state(s, src, GamePacket::End { player_id: id }, win_lap_count), id),
        forall|i: int|
            0 <= i < s.len() && (#[trigger] s[i]).player_id != id ==> session_of(
                spec_step_state(s, src, GamePacket::End { player_id: id }, win_lap_count),
                s[i],
            ),
        has_id(s, id) ==> spec_step_emits(s, src, GamePacket::End { player_id: id }, win_lap_count)
            == broadcast_emits(
            spec_step_state(s, src, GamePacket::End { player_id: id }, win_lap_count),
            GamePacket::DropPlayer { player_id: id },
        ),
        !has_id(s, id) ==> spec_step_state(s, src, GamePacket::End { player_id: id }, win_lap_count)
            == s && spec_step_emits(s, src, GamePacket::End { player_id: id }, win_lap_count)
            == Seq::<(Address, GamePacket)>::empty(),
{
    lemma_remove_id_increasing(s, id);
    lemma_remove_id_keeps_others(s, id);
    let s2 = spec_step_state(s, src, GamePacket::End { player_id: id }, win_lap_count);
    if has_id(s, id) {
        if has_id(s2, id) {
            let w = choose|w: int| 0 <= w < s2.len() && s2[w].player_id == id;
            assert(remove_id(s, id)[w].player_id != id);
        }
    } else {
        if has_id(s2, id) {
            let w = choose|w: int| 0 <= w < s2.len() && s2[w].player_id == id;
            assert(has_id(s, id));
        }
        assert forall|i: int| 0 <= i < s.len() && (#[trigger] s[i]).player_id != id implies
            session_of(s2, s[i]) by {
            assert(s2[i] == s[i]);
        }
        assert(spec_step_emits(s, src, GamePacket::End { player_id: id }, win_lap_count) =~= Seq::<
            (Address, GamePacket),
        >::empty());
    }
}

/// The registry after `n` successive `LapComplete` messages naming `id`.
pub open spec fn lap_steps(
    s: Seq<PlayerConnection>,
    src: Address,
    id: u8,
    win_lap_count: u32,
    n: nat,
) -> Seq<PlayerConnection>
    decreases n,
{
    if n == 0 {
        s
    } else {
        spec_step_state(
            lap_steps(s, src, id, win_lap_count, (n - 1) as nat),
            src,
            GamePacket::LapComplete { player_id: id },
            win_lap_count,
        )
    }
}

/// After `n` lap completions the named session's count has grown by `n` and
/// nothing else has moved.
proof fn lemma_lap_steps_shape(
    s: Seq<PlayerConnection>,
    src: Address,
    id: u8,
    win_lap_count: u32,
    n: nat,
)
    requires
        ids_increasing(s),
        has_id(s, id),
        s[index_of_id(s, id)].laps + n <= u32::MAX,
    ensures
        lap_steps(s, src, id, win_lap_count, n) == s.update(
            index_of_id(s, id),
            PlayerConnection {
                player_id: s[index_of_id(s, id)].player_id,
                address: s[index_of_id(s, id)].address,
                laps: (s[index_of_id(s, id)].laps + n) as u32,
            },
        ),
    decreases n,
{
    let k = index_of_id(s, id);
    if n == 0 {
        assert(lap_steps(s, src, id, win_lap_count, n) =~= s.update(
            k,
            PlayerConnection {
                player_id: s[k].player_id,
                address: s[k].address,
                laps: (s[k].laps + 0) as u32,
            },
        ));
    } else {
        lemma_lap_steps_shape(s, src, id, win_lap_count, (n - 1) as nat);
        let t = lap_steps(s, src, id, win_lap_count, (n - 1) as nat);
        assert forall|a: int, b: int| 0 <= a < b < t.len() implies t[a].player_id
            < t[b].player_id by {
            assert(t[a].player_id == s[a].player_id && t[b].player_id == s[b].player_id);
        }
        assert(t[k].player_id == id);
        lemma_index_of_id_unique(t, id, k);
        assert(lap_steps(s, src, id, win_lap_count, n) == lap_state(t, id));
        assert(lap_state(t, id) =~= s.update(
            k,
            PlayerConnection {
                player_id: s[k].player_id,
                address: s[k].address,
                laps: (s[k].laps + n) as u32,
            },
        ));
    }
}

/// Starting from a session with zero laps, `LapComplete` issued up to the
/// win threshold broadcasts `Restart` exactly once: each of the first
/// `win_lap_count - 1` issues emits nothing, and the issue on which the
/// threshold is first reached broadcasts `Restart` to every session, the
/// winner included.
pub proof fn lemma_win_broadcast_exactly_once(
    s: Seq<PlayerConnection>,
    src: Address,
    id: u8,
    win_lap_count: u32,
    n: nat,
)
    requires
        ids_increasing(s),
        has_id(s, id),
        s[index_of_id(s, id)].laps == 0,
        1 <= n <= win_lap_count,
    ensures
        n < win_lap_count ==> spec_step_emits(
            lap_steps(s, src, id, win_lap_count, (n - 1) as nat),
            src,
            GamePacket::LapComplete { player_id: id },
            win_lap_count,
        ) == Seq::<(Address, GamePacket)>::empty(),
        n == win_lap_count ==> spec_step_emits(
            lap_steps(s, src, id, win_lap_count, (n - 1) as nat),
            src,
            GamePacket::LapComplete { player_id: id },
            win_lap_count,
        ) == broadcast_emits(
            lap_steps(s, src, id, win_lap_count, n),
            GamePacket::Restart,
        ),
{
    let k = index_of_id(s, id);
    lemma_lap_steps_shape(s, src, id, win_lap_count, (n - 1) as nat);
    let t = lap_steps(s, src, id, win_lap_count, (n - 1) as nat);
    assert forall|a: int, b: int| 0 <= a < b < t.len() implies t[a].player_id < t[b].player_id by {
        assert(t[a].player_id == s[a].player_id && t[b].player_id == s[b].player_id);
    }
    assert(t[k].player_id == id);
    lemma_index_of_id_unique(t, id, k);
    assert(t[k].laps == n - 1);
    if n < win_lap_count {
        assert(spec_step_emits(
            t,
            src,
            GamePacket::LapComplete { player_id: id },
            win_lap_count,
        ) =~= Seq::<(Address, GamePacket)>::empty());
    }
}

/// `LapComplete` naming an id nobody carries mutates no state and emits
/// nothing.
pub proof fn lemma_lap_complete_unknown_id(
    s: Seq<PlayerConnection>,
    src: Address,
    id: u8,
    win_lap_count: u32,
)
    requires
        !has_id(s, id),
    ensures
        spec_step_state(s, src, GamePacket::LapComplete { player_id: id }, win_lap_count) == s,
        spec_step_emits(s, src, GamePacket::LapComplete { player_id: id }, win_lap_count) == Seq::<
            (Address, GamePacket),
        >::empty(),
{
    assert(spec_step_emits(s, src, GamePacket::LapComplete { player_id: id }, win_lap_count)
        =~= Seq::<(Address, GamePacket)>::empty());
}

/// Applies one decoded message from the endpoint `src` to the registry and
/// returns the (destination, message) pairs the server sends for it, in
/// order. The new registry is exactly `spec_step_state`, the emissions
/// exactly `spec_step_emits`, and the registry invariant is kept.
pub fn handle_packet(
    packet: GamePacket,
    src: Address,
    connections: &mut Vec<PlayerConnection>,
    win_lap_count: u32,
) -> (out: Vec<(Address, GamePacket)>)
    requires
        ids_increasing(old(connections)@),
        can_step(old(connections)@, packet),
    ensures
        final(connections)@ == spec_step_state(old(connections)@, src, packet, win_lap_count),
        out@ == spec_step_emits(old(connections)@, src, packet, win_lap_count),
        ids_increasing(final(connections)@),
{
    let ghost s0 = connections@;
    let mut out: Vec<(Address, GamePacket)> = Vec::new();
    match packet {
        GamePacket::Register => {
            let n = connections.len();
            let last_id: u8 = if n == 0 {
                0
            } else {
                connections[n - 1].player_id
            };
            proof {
                assert(last_id + 1 == next_player_id(s0));
            }
            let player_id = last_id + 1;
            connections.push(PlayerConnection::new(player_id, src));
            out.push((src, GamePacket::Inform { player_id }));
            proof {
                assert(out@ =~= register_emits(s0, src).subrange(0, 1));
            }
            let mut i: usize = 0;
            while i < n
                invariant
                    n == s0.len(),
                    i <= n,
                    player_id == next_player_id(s0),
                    connections@ == register_state(s0, src),
                    out@ == register_emits(s0, src).subrange(0, 1 + 2 * (i as int)),
                decreases n - i,
            {
                let p = connections[i];
                proof {
                    assert(p == s0[i as int]);
                }
                out.push((src, GamePacket::NewPlayer { player_id: p.player_id }));
                out.push((p.address, GamePacket::NewPlayer { player_id }));
                proof {
                    let e = register_emits(s0, src);
                    assert(e.len() == 1 + 2 * s0.len());
                    assert((2 * (i as int)) % 2 == 0 && (2 * (i as int)) / 2 == i as int);
                    assert((2 * (i as int) + 1) % 2 == 1 && (2 * (i as int) + 1) / 2 == i as int);
                    assert(e[1 + 2 * (i as int)] == (
                        src,
                        GamePacket::NewPlayer { player_id: s0[i as int].player_id },
                    ));
                    assert(e[2 + 2 * (i as int)] == (
                        s0[i as int].address,
                        GamePacket::NewPlayer { player_id },
                    ));
                    assert(e.subrange(0, 1 + 2 * (i as int + 1)) =~= e.subrange(
                        0,
                        1 + 2 * (i as int),
                    ) + seq![e[1 + 2 * (i as int)], e[2 + 2 * (i as int)]]);
                }
                i = i + 1;
            }
            proof {
                assert(out@ =~= register_emits(s0, src));
                assert forall|a: int, b: int|
                    0 <= a < b < connections@.len() implies connections@[a].player_id
                    < connections@[b].player_id by {
                    if b < s0.len() {
                        assert(connections@[a] == s0[a] && connections@[b] == s0[b]);
                    } else {
                        assert(connections@[b].player_id == player_id);
                        assert(connections@[a] == s0[a]);
                        if a < s0.len() - 1 {
                            assert(s0[a].player_id < s0[s0.len() - 1].player_id);
                        }
                    }
                }
            }
        },
        GamePacket::StatusUpdate(u) => {
            let n = connections.len();
            let mut i: usize = 0;
            while i < n
                invariant
                    n == s0.len(),
                    i <= n,
                    connections@ == s0,
                    out@ == status_emits(s0.subrange(0, i as int), src, u),
                decreases n - i,
            {
                let p = connections[i];
                proof {
                    assert(s0.subrange(0, i as int + 1).drop_last() =~= s0.subrange(0, i as int));
                    assert(s0.subrange(0, i as int + 1).last() == s0[i as int]);
                }
                if p.address != src {
                    out.push((p.address, GamePacket::StatusUpdate(u)));
                }
                proof {
                    assert(out@ =~= status_emits(s0.subrange(0, i as int + 1), src, u));
                }
                i = i + 1;
            }
            proof {
                assert(s0.subrange(0, s0.len() as int) =~= s0);
            }
        },
        GamePacket::LapComplete { player_id } => {
            let n = connections.len();
            let mut idx: usize = n;
            let mut i: usize = 0;
            while i < n
                invariant
                    n == s0.len(),
                    i <= n,
                    connections@ == s0,
                    idx == n || (idx < i && s0[idx as int].player_id == player_id),
                    idx == n ==> forall|j: int| 0 <= j < i ==> s0[j].player_id != player_id,
                decreases n - i,
            {
                if connections[i].player_id == player_id {
                    idx = i;
                }
                i = i + 1;
            }
            if idx < n {
                proof {
                    lemma_index_of_id_unique(s0, player_id, idx as int);
                }
                let p = connections[idx];
                let new_laps = p.laps + 1;
                connections[idx] = PlayerConnection {
                    player_id: p.player_id,
                    address: p.address,
                    laps: new_laps,
                };
                proof {
                    assert(connections@ =~= lap_state(s0, player_id));
                    assert forall|a: int, b: int|
                        0 <= a < b < connections@.len() implies connections@[a].player_id
                        < connections@[b].player_id by {
                        assert(connections@[a].player_id == s0[a].player_id);
                        assert(connections@[b].player_id == s0[b].player_id);
                    }
                }
                if new_laps >= win_lap_count {
                    let ghost s2 = connections@;
                    let n2 = connections.len();
                    let mut j: usize = 0;
                    while j < n2
                        invariant
                            n2 == s2.len(),
                            j <= n2,
                            connections@ == s2,
                            out@ == broadcast_emits(s2, GamePacket::Restart).subrange(
                                0,
                                j as int,
                            ),
                        decreases n2 - j,
                    {
                        let q = connections[j];
                        out.push((q.address, GamePacket::Restart));
                        proof {
                            let e = broadcast_emits(s2, GamePacket::Restart);
                            assert(e.subrange(0, j as int + 1) =~= e.subrange(0, j as int)
                                + seq![(s2[j as int].address, GamePacket::Restart)]);
                        }
                        j = j + 1;
                    }
                    proof {
                        let e = broadcast_emits(s2, GamePacket::Restart);
                        assert(e.subrange(0, s2.len() as int) =~= e);
                    }
                }
            } else {
                proof {
                    assert(!has_id(s0, player_id));
                }
            }
        },
        GamePacket::End { player_id } => {
            let n = connections.len();
            let mut kept: Vec<PlayerConnection> = Vec::new();
            let mut found = false;
            let mut i: usize = 0;
            while i < n
                invariant
                    n == s0.len(),
                    i <= n,
                    connections@ == s0,
                    kept@ == remove_id(s0.subrange(0, i as int), player_id),
                    found <==> has_id(s0.subrange(0, i as int), player_id),
                decreases n - i,
            {
                let p = connections[i];
                proof {
                    assert(s0.subrange(0, i as int + 1).drop_last() =~= s0.subrange(0, i as int));
                    assert(s0.subrange(0, i as int + 1).last() == s0[i as int]);
                }
                if p.player_id == player_id {
                    found = true;
                    proof {
                        assert(s0.subrange(0, i as int + 1)[i as int].player_id == player_id);
                        assert(has_id(s0.subrange(0, i as int + 1), player_id));
                    }
                } else {
                    kept.push(p);
                    proof {
                        let s_a = s0.subrange(0, i as int);
                        let s_b = s0.subrange(0, i as int + 1);
                        if has_id(s_b, player_id) {
                            let w = choose|w: int|
                                0 <= w < s_b.len() && s_b[w].player_id == player_id;
                            assert(w < i as int);
                            assert(s_a[w].player_id == player_id);
                            assert(has_id(s_a, player_id));
                        }
                        if has_id(s_a, player_id) {
                            let w = choose|w: int|
                                0 <= w < s_a.len() && s_a[w].player_id == player_id;
                            assert(s_b[w].player_id == player_id);
                            assert(has_id(s_b, player_id));
                        }
                    }
                }
                proof {
                    assert(kept@ =~= remove_id(s0.subrange(0, i as int + 1), player_id));
                }
                i = i + 1;
            }
            proof {
                assert(s0.subrange(0, s0.len() as int) =~= s0);
            }
            if found {
                proof {
                    lemma_remove_id_increasing(s0, player_id);
                }
                *connections = kept;
                let ghost s2 = connections@;
                let n2 = connections.len();
                let mut j: usize = 0;
                while j < n2
                    invariant
                        n2 == s2.len(),
                        j <= n2,
                        connections@ == s2,
                        out@ == broadcast_emits(
                            s2,
                            GamePacket::DropPlayer { player_id },
                        ).subrange(0, j as int),
                    decreases n2 - j,
                {
                    let q = connections[j];
                    out.push((q.address, GamePacket::DropPlayer { player_id }));
                    proof {
                        let e = broadcast_emits(s2, GamePacket::DropPlayer { player_id });
                        assert(e.subrange(0, j as int + 1) =~= e.subrange(0, j as int)
                            + seq![(s2[j as int].address, GamePacket::DropPlayer { player_id })]);
                    }
                    j = j + 1;
                }
                proof {
                    let e = broadcast_emits(s2, GamePacket::DropPlayer { player_id });
                    assert(e.subrange(0, s2.len() as int) =~= e);
                }
            }
        },
        _ => {},
    }
    out
}

} // verus!

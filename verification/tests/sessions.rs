use race_relay::packets::GamePacket;
use race_relay::packets::StatusUpdate;
use race_relay::packets::Vector3;
use race_relay::relay::handle_packet;
use race_relay::relay::Address;
use race_relay::relay::PlayerConnection;

const WIN: u32 = 5;

fn addr(n: u128) -> Address {
    Address { ip: n, port: 5899 }
}

fn status(player_id: u8) -> StatusUpdate {
    StatusUpdate::new(
        player_id,
        Vector3::new(1.0f32.to_bits(), 2.0f32.to_bits(), 3.0f32.to_bits()),
        0.5f32.to_bits(),
        0.25f32.to_bits(),
    )
}

#[test]
fn register_allocates_one_then_two_then_three() {
    let a = addr(1);
    let b = addr(2);
    let c = addr(3);
    let mut sessions: Vec<PlayerConnection> = Vec::new();

    let out = handle_packet(GamePacket::Register, a, &mut sessions, WIN);
    assert_eq!(out, vec![(a, GamePacket::Inform { player_id: 1 })]);
    assert_eq!(sessions.len(), 1);
    assert_eq!(sessions[0].player_id, 1);
    assert_eq!(sessions[0].laps, 0);

    let out = handle_packet(GamePacket::Register, b, &mut sessions, WIN);
    assert_eq!(sessions[1].player_id, 2);
    assert_eq!(
        out,
        vec![
            (b, GamePacket::Inform { player_id: 2 }),
            (b, GamePacket::NewPlayer { player_id: 1 }),
            (a, GamePacket::NewPlayer { player_id: 2 }),
        ]
    );

    // Ids are never reused while a higher id is live: after dropping id 1,
    // the next registration gets 3, not 1.
    handle_packet(GamePacket::End { player_id: 1 }, a, &mut sessions, WIN);
    let out = handle_packet(GamePacket::Register, c, &mut sessions, WIN);
    assert_eq!(sessions.len(), 2);
    assert_eq!(sessions[1].player_id, 3);
    assert_eq!(
        out,
        vec![
            (c, GamePacket::Inform { player_id: 3 }),
            (c, GamePacket::NewPlayer { player_id: 2 }),
            (b, GamePacket::NewPlayer { player_id: 3 }),
        ]
    );
}

#[test]
fn status_update_goes_to_everyone_but_the_sender() {
    let a = addr(1);
    let b = addr(2);
    let c = addr(3);
    let mut sessions: Vec<PlayerConnection> = Vec::new();
    handle_packet(GamePacket::Register, a, &mut sessions, WIN);
    handle_packet(GamePacket::Register, b, &mut sessions, WIN);
    handle_packet(GamePacket::Register, c, &mut sessions, WIN);

    let m = GamePacket::StatusUpdate(status(2));
    let out = handle_packet(m, b, &mut sessions, WIN);
    assert_eq!(out, vec![(a, m), (c, m)]);
    assert_eq!(sessions.len(), 3);
}

#[test]
fn lap_complete_win_broadcasts_exactly_once() {
    let a = addr(1);
    let b = addr(2);
    let win = 3;
    let mut sessions: Vec<PlayerConnection> = Vec::new();
    handle_packet(GamePacket::Register, a, &mut sessions, win);
    handle_packet(GamePacket::Register, b, &mut sessions, win);

    let lap = GamePacket::LapComplete { player_id: 1 };
    let out = handle_packet(lap, a, &mut sessions, win);
    assert_eq!(out, vec![]);
    assert_eq!(sessions[0].laps, 1);
    let out = handle_packet(lap, a, &mut sessions, win);
    assert_eq!(out, vec![]);
    assert_eq!(sessions[0].laps, 2);
    // Third completion reaches the threshold: one Restart to every session,
    // the winner included.
    let out = handle_packet(lap, a, &mut sessions, win);
    assert_eq!(out, vec![(a, GamePacket::Restart), (b, GamePacket::Restart)]);
    assert_eq!(sessions[0].laps, 3);
}

#[test]
fn lap_complete_for_unknown_id_is_ignored() {
    let a = addr(1);
    let mut sessions: Vec<PlayerConnection> = Vec::new();
    handle_packet(GamePacket::Register, a, &mut sessions, WIN);
    let before = sessions.clone();
    let out = handle_packet(GamePacket::LapComplete { player_id: 9 }, a, &mut sessions, WIN);
    assert_eq!(out, vec![]);
    assert_eq!(sessions, before);
}

#[test]
fn end_removes_the_session_and_tells_the_rest() {
    let a = addr(1);
    let b = addr(2);
    let c = addr(3);
    let mut sessions: Vec<PlayerConnection> = Vec::new();
    handle_packet(GamePacket::Register, a, &mut sessions, WIN);
    handle_packet(GamePacket::Register, b, &mut sessions, WIN);
    handle_packet(GamePacket::Register, c, &mut sessions, WIN);

    let out = handle_packet(GamePacket::End { player_id: 2 }, b, &mut sessions, WIN);
    assert_eq!(sessions.len(), 2);
    assert_eq!(sessions[0].player_id, 1);
    assert_eq!(sessions[1].player_id, 3);
    assert_eq!(
        out,
        vec![
            (a, GamePacket::DropPlayer { player_id: 2 }),
            (c, GamePacket::DropPlayer { player_id: 2 }),
        ]
    );
}

#[test]
fn end_for_an_absent_id_is_a_no_op() {
    let a = addr(1);
    let b = addr(2);
    let mut sessions: Vec<PlayerConnection> = Vec::new();
    handle_packet(GamePacket::Register, a, &mut sessions, WIN);
    handle_packet(GamePacket::Register, b, &mut sessions, WIN);
    let before = sessions.clone();
    let out = handle_packet(GamePacket::End { player_id: 9 }, a, &mut sessions, WIN);
    assert_eq!(out, vec![]);
    assert_eq!(sessions, before);
}

#[test]
fn server_only_messages_from_a_client_are_ignored() {
    let a = addr(1);
    let b = addr(2);
    let mut sessions: Vec<PlayerConnection> = Vec::new();
    handle_packet(GamePacket::Register, a, &mut sessions, WIN);
    handle_packet(GamePacket::Register, b, &mut sessions, WIN);
    let before = sessions.clone();
    for m in [
        GamePacket::Inform { player_id: 1 },
        GamePacket::NewPlayer { player_id: 1 },
        GamePacket::DropPlayer { player_id: 1 },
        GamePacket::Restart,
    ] {
        let out = handle_packet(m, a, &mut sessions, WIN);
        assert_eq!(out, vec![]);
        assert_eq!(sessions, before);
    }
}

#[test]
fn two_joins_one_leave_scenario() {
    let a = addr(1);
    let b = addr(2);
    let mut sessions: Vec<PlayerConnection> = Vec::new();

    let out = handle_packet(GamePacket::Register, a, &mut sessions, WIN);
    assert_eq!(out, vec![(a, GamePacket::Inform { player_id: 1 })]);

    let out = handle_packet(GamePacket::Register, b, &mut sessions, WIN);
    assert_eq!(
        out,
        vec![
            (b, GamePacket::Inform { player_id: 2 }),
            (b, GamePacket::NewPlayer { player_id: 1 }),
            (a, GamePacket::NewPlayer { player_id: 2 }),
        ]
    );

    let out = handle_packet(GamePacket::End { player_id: 1 }, a, &mut sessions, WIN);
    assert_eq!(out, vec![(b, GamePacket::DropPlayer { player_id: 1 })]);

    // A is gone: B's status update is relayed to nobody.
    let out = handle_packet(GamePacket::StatusUpdate(status(2)), b, &mut sessions, WIN);
    assert_eq!(out, vec![]);
}

#[test]
fn duplicate_lap_delivery_double_counts() {
    // The protocol has no de-duplication: a redelivered LapComplete counts
    // as another lap, so the threshold can be reached early.
    let a = addr(1);
    let win = 2;
    let mut sessions: Vec<PlayerConnection> = Vec::new();
    handle_packet(GamePacket::Register, a, &mut sessions, win);
    let lap = GamePacket::LapComplete { player_id: 1 };
    assert_eq!(handle_packet(lap, a, &mut sessions, win), vec![]);
    assert_eq!(
        handle_packet(lap, a, &mut sessions, win),
        vec![(a, GamePacket::Restart)]
    );
    assert_eq!(sessions[0].laps, 2);
}

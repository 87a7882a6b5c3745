use race_relay::packets::GamePacket;
use race_relay::packets::StatusUpdate;
use race_relay::packets::Vector3;
use race_relay::parser::parse_float;
use race_relay::parser::parse_packet;
use race_relay::parser::parse_register;
use race_relay::parser::parse_status_update;
use race_relay::parser::parse_vector3;
use race_relay::parser::ParseError;

fn sample_status() -> StatusUpdate {
    StatusUpdate::new(
        9,
        Vector3::new(1.5f32.to_bits(), (-2.25f32).to_bits(), 0.0f32.to_bits()),
        3.5f32.to_bits(),
        (-0.125f32).to_bits(),
    )
}

#[test]
fn encode_register_exact() {
    assert_eq!(GamePacket::Register.to_binary_data(), vec![0u8]);
}

#[test]
fn encode_restart_exact() {
    assert_eq!(GamePacket::Restart.to_binary_data(), vec![8u8]);
}

#[test]
fn encode_id_variants_exact() {
    assert_eq!(GamePacket::End { player_id: 7 }.to_binary_data(), vec![3u8, 7]);
    assert_eq!(GamePacket::DropPlayer { player_id: 1 }.to_binary_data(), vec![4u8, 1]);
    assert_eq!(GamePacket::Inform { player_id: 255 }.to_binary_data(), vec![5u8, 255]);
    assert_eq!(GamePacket::NewPlayer { player_id: 0 }.to_binary_data(), vec![6u8, 0]);
    assert_eq!(GamePacket::LapComplete { player_id: 12 }.to_binary_data(), vec![7u8, 12]);
}

#[test]
fn encode_status_update_exact() {
    let u = sample_status();
    let mut expected = vec![1u8, 9u8];
    expected.extend_from_slice(&1.5f32.to_le_bytes());
    expected.extend_from_slice(&(-2.25f32).to_le_bytes());
    expected.extend_from_slice(&0.0f32.to_le_bytes());
    expected.extend_from_slice(&3.5f32.to_le_bytes());
    expected.extend_from_slice(&(-0.125f32).to_le_bytes());
    assert_eq!(GamePacket::StatusUpdate(u).to_binary_data(), expected);
    assert_eq!(expected.len(), 22);
}

#[test]
fn round_trip_every_variant() {
    let messages = vec![
        GamePacket::Register,
        GamePacket::Inform { player_id: 1 },
        GamePacket::NewPlayer { player_id: 200 },
        GamePacket::LapComplete { player_id: 5 },
        GamePacket::StatusUpdate(sample_status()),
        GamePacket::Restart,
        GamePacket::DropPlayer { player_id: 0 },
        GamePacket::End { player_id: 255 },
    ];
    for m in messages {
        let bytes = m.to_binary_data();
        assert_eq!(parse_packet(&bytes), Ok(m));
    }
}

#[test]
fn round_trip_keeps_float_payload_bits() {
    let u = StatusUpdate::new(
        3,
        Vector3::new(
            f32::NAN.to_bits(),
            f32::INFINITY.to_bits(),
            f32::NEG_INFINITY.to_bits(),
        ),
        (-0.0f32).to_bits(),
        f32::MIN_POSITIVE.to_bits(),
    );
    let m = GamePacket::StatusUpdate(u);
    assert_eq!(parse_packet(&m.to_binary_data()), Ok(m));
}

#[test]
fn unknown_first_byte_is_rejected() {
    assert_eq!(parse_packet(&[2u8]), Err(ParseError::UnrecognizedTag));
    assert_eq!(parse_packet(&[9u8, 1, 2, 3]), Err(ParseError::UnrecognizedTag));
    assert_eq!(parse_packet(&[255u8]), Err(ParseError::UnrecognizedTag));
}

#[test]
fn truncated_buffers_are_rejected() {
    assert_eq!(parse_packet(&[]), Err(ParseError::Truncated));
    assert_eq!(parse_packet(&[3u8]), Err(ParseError::Truncated));
    assert_eq!(parse_packet(&[4u8]), Err(ParseError::Truncated));
    assert_eq!(parse_packet(&[5u8]), Err(ParseError::Truncated));
    assert_eq!(parse_packet(&[6u8]), Err(ParseError::Truncated));
    assert_eq!(parse_packet(&[7u8]), Err(ParseError::Truncated));
    let short_status = [1u8; 21];
    assert_eq!(parse_packet(&short_status), Err(ParseError::Truncated));
}

#[test]
fn trailing_bytes_are_not_an_error() {
    assert_eq!(parse_packet(&[0u8, 99, 99]), Ok(GamePacket::Register));
    assert_eq!(parse_packet(&[5u8, 7, 42]), Ok(GamePacket::Inform { player_id: 7 }));
    let mut bytes = GamePacket::StatusUpdate(sample_status()).to_binary_data();
    bytes.push(0xAB);
    assert_eq!(
        parse_packet(&bytes),
        Ok(GamePacket::StatusUpdate(sample_status()))
    );
}

#[test]
fn parse_float_reads_le_bits() {
    let bytes = 12.75f32.to_le_bytes();
    assert_eq!(parse_float(&bytes), Ok(12.75f32.to_bits()));
    assert_eq!(parse_float(&bytes[..3]), Err(ParseError::Truncated));
}

#[test]
fn parse_vector3_reads_three_floats() {
    let mut bytes = Vec::new();
    bytes.extend_from_slice(&1.0f32.to_le_bytes());
    bytes.extend_from_slice(&2.0f32.to_le_bytes());
    bytes.extend_from_slice(&4.0f32.to_le_bytes());
    assert_eq!(
        parse_vector3(&bytes),
        Ok(Vector3::new(
            1.0f32.to_bits(),
            2.0f32.to_bits(),
            4.0f32.to_bits()
        ))
    );
    assert_eq!(parse_vector3(&bytes[..11]), Err(ParseError::Truncated));
}

#[test]
fn variant_parsers_demand_their_tag() {
    assert_eq!(parse_register(&[0u8]), Ok(GamePacket::Register));
    assert_eq!(parse_register(&[1u8]), Err(ParseError::UnrecognizedTag));
    assert_eq!(parse_status_update(&[0u8]), Err(ParseError::UnrecognizedTag));
    assert_eq!(parse_status_update(&[1u8, 2, 3]), Err(ParseError::Truncated));
}

use conclave_room_serialize::{
    ClientInfo, ClientReceiveCommand, DecodeError, InOctetStream, OutOctetStream, PingCommand,
    RoomInfoCommand, ServerReceiveCommand, PING_COMMAND_TYPE_ID, ROOM_INFO_COMMAND_TYPE_ID,
};

use flood_rs::WriteOctetStream;

#[test]
fn check_serializer() {
    let ping_command = PingCommand {
        term: 32,
        knowledge: 444441,
        has_connection_to_leader: false,
    };

    let mut out_stream = OutOctetStream::new();
    ping_command.to_octets(&mut out_stream);

    let mut in_stream = InOctetStream::new(out_stream.data);
    let in_stream_ref = &mut in_stream;
    let deserialized_ping_command = PingCommand::from_cursor(in_stream_ref).unwrap();

    println!("before {:?}", &ping_command);
    println!("after {:?}", &deserialized_ping_command);
    assert_eq!(ping_command, deserialized_ping_command);
}

#[test]
fn check_server_receive_message() {
    const EXPECTED_KNOWLEDGE_VALUE: u64 = 17718865395771014920;

    let octets = [
        PING_COMMAND_TYPE_ID,
        0x00,
        0x20, // Term
        0xF5,
        0xE6,
        0x0E,
        0x32,
        0xE9,
        0xE4,
        0x7F,
        0x08, // Knowledge
        0x01, // Has Connection
    ];

    let mut in_stream = InOctetStream::new(Vec::from(octets));

    let message = &ServerReceiveCommand::from_cursor(&mut in_stream).unwrap();

    match message {
        ServerReceiveCommand::PingCommandType(ping_command) => {
            println!("received {:?}", &ping_command);
            assert_eq!(ping_command.term, 0x20);
            assert_eq!(ping_command.knowledge, EXPECTED_KNOWLEDGE_VALUE);
            assert_eq!(ping_command.has_connection_to_leader, true);
        }
    }
}

#[test]
fn check_client_receive_message() {
    const EXPECTED_LEADER_INDEX: u8 = 1;

    let octets = [
        ROOM_INFO_COMMAND_TYPE_ID,
        0x00,                  // Term
        0x4A,                  // Term (lower)
        0x00,                  // Number of client infos that follows
        EXPECTED_LEADER_INDEX, // Leader index
    ];

    let mut in_stream = InOctetStream::new(Vec::from(octets));

    let message = &ClientReceiveCommand::from_octets(&mut in_stream).unwrap();

    match message {
        ClientReceiveCommand::RoomInfoType(room_info) => {
            println!("received {:?}", &room_info);
            assert_eq!(room_info.term, 0x4A);
            assert_eq!(room_info.leader_index, EXPECTED_LEADER_INDEX);
        }
    }
}

#[test]
fn ping_encodes_to_exact_bytes() {
    let ping_command = PingCommand {
        term: 32,
        knowledge: 444441,
        has_connection_to_leader: false,
    };

    let command = ServerReceiveCommand::PingCommandType(ping_command);
    let mut out_stream = OutOctetStream::new();
    command.to_octets(&mut out_stream);

    let expected: Vec<u8> = vec![
        0x01, // type id
        0x00, 0x20, // term
        0x00, 0x00, 0x00, 0x00, 0x00, 0x06, 0xC8, 0x19, // knowledge
        0x00, // has connection to leader
    ];
    assert_eq!(out_stream.data, expected);

    let mut in_stream = InOctetStream::new(out_stream.data);
    let decoded = ServerReceiveCommand::from_cursor(&mut in_stream).unwrap();
    match decoded {
        ServerReceiveCommand::PingCommandType(p) => {
            assert_eq!(p.term, 32);
            assert_eq!(p.knowledge, 444441);
            assert_eq!(p.has_connection_to_leader, false);
        }
    }
}

#[test]
fn ping_decode_reencodes_identical_bytes() {
    let octets: Vec<u8> = vec![
        0x01, 0x00, 0x20, 0xF5, 0xE6, 0x0E, 0x32, 0xE9, 0xE4, 0x7F, 0x08, 0x01,
    ];

    let mut in_stream = InOctetStream::new(octets.clone());
    let message = ServerReceiveCommand::from_cursor(&mut in_stream).unwrap();

    match &message {
        ServerReceiveCommand::PingCommandType(p) => {
            assert_eq!(p.term, 0x20);
            assert_eq!(p.knowledge, 17718865395771014920);
            assert_eq!(p.has_connection_to_leader, true);
        }
    }

    let mut out_stream = OutOctetStream::new();
    message.to_octets(&mut out_stream);
    assert_eq!(out_stream.data, octets);
}

#[test]
fn room_info_empty_list_reencodes_identical_bytes() {
    let octets: Vec<u8> = vec![0x02, 0x00, 0x4A, 0x00, 0x01];

    let mut in_stream = InOctetStream::new(octets.clone());
    let message = ClientReceiveCommand::from_octets(&mut in_stream).unwrap();

    match &message {
        ClientReceiveCommand::RoomInfoType(room_info) => {
            assert_eq!(room_info.term, 0x4A);
            assert_eq!(room_info.leader_index, 1);
            assert_eq!(room_info.client_infos.len(), 0);
        }
    }

    let mut out_stream = OutOctetStream::new();
    message.to_octets(&mut out_stream);
    assert_eq!(out_stream.data, octets);
}

#[test]
fn room_info_with_clients_round_trip() {
    let room_info = RoomInfoCommand {
        term: 0x1234,
        leader_index: 2,
        client_infos: vec![
            ClientInfo {
                custom_user_id: 0x1122334455667788,
                connection_index: 7,
            },
            ClientInfo {
                custom_user_id: 42,
                connection_index: 0,
            },
        ],
    };

    let command = ClientReceiveCommand::RoomInfoType(room_info);
    let mut out_stream = OutOctetStream::new();
    command.to_octets(&mut out_stream);

    let expected: Vec<u8> = vec![
        0x02, // type id
        0x12, 0x34, // term
        0x02, // count
        0x07, 0x11, 0x22, 0x33, 0x44, 0x55, 0x66, 0x77, 0x88, // first client
        0x00, 0x00, 0x00, 0x00, 0x00, 0x00, 0x00, 0x00, 0x2A, // second client
        0x02, // leader index
    ];
    assert_eq!(out_stream.data, expected);

    let mut in_stream = InOctetStream::new(out_stream.data);
    let decoded = ClientReceiveCommand::from_octets(&mut in_stream).unwrap();
    let ClientReceiveCommand::RoomInfoType(decoded_room_info) = decoded;
    let ClientReceiveCommand::RoomInfoType(original_room_info) = command;
    assert_eq!(decoded_room_info, original_room_info);
}

#[test]
fn unknown_type_id_fails_both_directions() {
    let octets: Vec<u8> = vec![0xFF, 0x00, 0x20, 0x00, 0x00];

    let mut in_stream = InOctetStream::new(octets.clone());
    let server_err = ServerReceiveCommand::from_cursor(&mut in_stream).unwrap_err();
    assert_eq!(server_err, DecodeError::UnknownCommandType(0xFF));

    let mut in_stream = InOctetStream::new(octets);
    let client_err = ClientReceiveCommand::from_octets(&mut in_stream).unwrap_err();
    assert_eq!(client_err, DecodeError::UnknownCommandType(0xFF));
}

#[test]
fn empty_buffer_fails_both_directions() {
    let mut in_stream = InOctetStream::new(Vec::new());
    let server_err = ServerReceiveCommand::from_cursor(&mut in_stream).unwrap_err();
    assert_eq!(server_err, DecodeError::UnexpectedEndOfInput);

    let mut in_stream = InOctetStream::new(Vec::new());
    let client_err = ClientReceiveCommand::from_octets(&mut in_stream).unwrap_err();
    assert_eq!(client_err, DecodeError::UnexpectedEndOfInput);
}

#[test]
fn truncated_ping_buffer_fails_with_end_of_input() {
    let octets: Vec<u8> = vec![
        0x01, 0x00, 0x20, 0xF5, 0xE6, 0x0E, 0x32, 0xE9, 0xE4, 0x7F, 0x08, 0x01,
    ];

    for len in 1..octets.len() {
        let prefix = octets[..len].to_vec();
        let mut in_stream = InOctetStream::new(prefix);
        let err = ServerReceiveCommand::from_cursor(&mut in_stream).unwrap_err();
        assert_eq!(err, DecodeError::UnexpectedEndOfInput);
    }
}

#[test]
fn truncated_room_info_buffer_fails_with_end_of_input() {
    let room_info = RoomInfoCommand {
        term: 9,
        leader_index: 1,
        client_infos: vec![
            ClientInfo {
                custom_user_id: 77,
                connection_index: 1,
            },
            ClientInfo {
                custom_user_id: 78,
                connection_index: 2,
            },
        ],
    };
    let command = ClientReceiveCommand::RoomInfoType(room_info);
    let mut out_stream = OutOctetStream::new();
    command.to_octets(&mut out_stream);
    let octets = out_stream.data;
    assert_eq!(octets.len(), 5 + 9 * 2);

    for len in 1..octets.len() {
        let prefix = octets[..len].to_vec();
        let mut in_stream = InOctetStream::new(prefix);
        let err = ClientReceiveCommand::from_octets(&mut in_stream).unwrap_err();
        assert_eq!(err, DecodeError::UnexpectedEndOfInput);
    }
}

#[test]
fn nonzero_connection_flag_octet_decodes_as_true() {
    for flag_octet in [0x01u8, 0x02, 0x5A, 0xFF] {
        let octets: Vec<u8> = vec![
            0x01, 0x00, 0x20, 0x00, 0x00, 0x00, 0x00, 0x00, 0x06, 0xC9, 0xD9, flag_octet,
        ];
        let mut in_stream = InOctetStream::new(octets);
        let message = ServerReceiveCommand::from_cursor(&mut in_stream).unwrap();
        match message {
            ServerReceiveCommand::PingCommandType(p) => {
                assert_eq!(p.has_connection_to_leader, true);
            }
        }
    }

    let octets: Vec<u8> = vec![
        0x01, 0x00, 0x20, 0x00, 0x00, 0x00, 0x00, 0x00, 0x06, 0xC9, 0xD9, 0x00,
    ];
    let mut in_stream = InOctetStream::new(octets);
    let message = ServerReceiveCommand::from_cursor(&mut in_stream).unwrap();
    match message {
        ServerReceiveCommand::PingCommandType(p) => {
            assert_eq!(p.has_connection_to_leader, false);
        }
    }
}

#[test]
fn stream_writes_match_reference_octet_stream() {

    let mut ours = OutOctetStream::new();
    ours.write_u16(0xABCD);
    ours.write_u64(0x0102030405060708);
    ours.write_u8(0x9C);

    let mut reference = flood_rs::out_stream::OutOctetStream::new();
    reference.write_u16(0xABCD).unwrap();
    reference.write_u64(0x0102030405060708).unwrap();
    reference.write_u8(0x9C).unwrap();

    assert_eq!(ours.data, reference.octets());
}

#[test]
fn stream_reads_back_big_endian_values() {
    let mut out_stream = OutOctetStream::new();
    out_stream.write_u16(0xF00D);
    out_stream.write_u64(17718865395771014920);
    out_stream.write_u8(3);

    let mut in_stream = InOctetStream::new(out_stream.data);
    assert_eq!(in_stream.read_u16().unwrap(), 0xF00D);
    assert_eq!(in_stream.read_u64().unwrap(), 17718865395771014920);
    assert_eq!(in_stream.read_u8().unwrap(), 3);
    assert_eq!(in_stream.read_u8().unwrap_err(), DecodeError::UnexpectedEndOfInput);
}

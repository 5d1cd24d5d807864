use game_stream::input::{
    encode_message, parse_datagram, plan_injection, viewport_scale_known, InputCommand,
    InputQueue, Injection, MessageReader, EVENT_KEY, INPUT_PROTOCOL_MAGIC, QUEUE_CAPACITY,
};

const KEY_A: [u8; 16] = [
    0x31, 0x49, 0x53, 0x47, 10, 0, 1, 1, 65, 0, 0, 0, 97, 0, 0, 0,
];
const MOUSE_LEFT: [u8; 19] = [
    0x31, 0x49, 0x53, 0x47, 13, 0, 2, 1, 1, 0, 0, 0x00, 0x00, 0xc9, 0x42, 0x00, 0x40, 0x48, 0x43,
];
const MOUSE_MOTION: [u8; 23] = [
    0x31, 0x49, 0x53, 0x47, 17, 0, 3, 0x00, 0x00, 0xc9, 0x42, 0x00, 0x40, 0x48, 0x43, 0x00, 0x00,
    0x00, 0xc0, 0x00, 0x00, 0x60, 0x40,
];

#[test]
fn shared_client_fixtures_match_parser_and_serializer() {
    let fixtures: &[(&[u8], InputCommand)] = &[
        (
            &KEY_A,
            InputCommand::Key {
                keycode: 65,
                unicode: 97,
                pressed: true,
            },
        ),
        (
            &MOUSE_LEFT,
            InputCommand::MouseButton {
                button: 1,
                pressed: true,
                double_click: false,
                x: 100.5f32.to_bits(),
                y: 200.25f32.to_bits(),
            },
        ),
        (
            &MOUSE_MOTION,
            InputCommand::MouseMotion {
                x: 100.5f32.to_bits(),
                y: 200.25f32.to_bits(),
                dx: (-2.0f32).to_bits(),
                dy: 3.5f32.to_bits(),
            },
        ),
    ];
    for &(bytes, command) in fixtures {
        assert_eq!(parse_datagram(bytes), Some(command));
        assert_eq!(encode_message(command), bytes);
    }
}

#[test]
fn encode_parse_round_trips_every_event_type() {
    let commands = [
        InputCommand::Key {
            keycode: 4_194_305,
            unicode: 0,
            pressed: true,
        },
        InputCommand::Key {
            keycode: 65,
            unicode: 97,
            pressed: false,
        },
        InputCommand::MouseButton {
            button: 1,
            pressed: true,
            double_click: false,
            x: 640.5f32.to_bits(),
            y: 360.25f32.to_bits(),
        },
        InputCommand::MouseMotion {
            x: 1.0f32.to_bits(),
            y: 2.0f32.to_bits(),
            dx: (-0.5f32).to_bits(),
            dy: 3.5f32.to_bits(),
        },
    ];
    for command in commands {
        let message = encode_message(command);
        assert_eq!(parse_datagram(&message), Some(command));
    }
}

#[test]
fn key_message_layout_is_fixed() {
    let message = encode_message(InputCommand::Key {
        keycode: 4_194_309,
        unicode: 13,
        pressed: true,
    });
    assert_eq!(message.len(), 16);
    assert_eq!(&message[..4], &INPUT_PROTOCOL_MAGIC.to_le_bytes());
    assert_eq!(u16::from_le_bytes([message[4], message[5]]), 10);
    assert_eq!(message[6], EVENT_KEY);
    assert_eq!(message[7], 1);
    assert_eq!(
        u32::from_le_bytes(message[8..12].try_into().unwrap()),
        4_194_309
    );
    assert_eq!(u32::from_le_bytes(message[12..16].try_into().unwrap()), 13);
}

#[test]
fn datagram_parser_rejects_bad_input() {
    let valid = encode_message(InputCommand::MouseMotion {
        x: 1.0f32.to_bits(),
        y: 1.0f32.to_bits(),
        dx: 0.0f32.to_bits(),
        dy: 0.0f32.to_bits(),
    });
    assert_eq!(parse_datagram(&valid[..valid.len() - 1]), None);
    let mut trailing = valid.clone();
    trailing.push(0);
    assert_eq!(parse_datagram(&trailing), None);

    let mut bad_magic = valid;
    bad_magic[0] ^= 0xFF;
    assert_eq!(parse_datagram(&bad_magic), None);

    let nan_coords = encode_message(InputCommand::MouseMotion {
        x: f32::NAN.to_bits(),
        y: 0.0f32.to_bits(),
        dx: 0.0f32.to_bits(),
        dy: 0.0f32.to_bits(),
    });
    assert_eq!(parse_datagram(&nan_coords), None);

    let bad_button = encode_message(InputCommand::MouseButton {
        button: 42,
        pressed: true,
        double_click: false,
        x: 1.0f32.to_bits(),
        y: 1.0f32.to_bits(),
    });
    assert_eq!(parse_datagram(&bad_button), None);
}

#[test]
fn reader_assembles_frames_across_partial_reads_and_resyncs_on_garbage() {
    let first = encode_message(InputCommand::Key {
        keycode: 32,
        unicode: 32,
        pressed: true,
    });
    let second = encode_message(InputCommand::MouseButton {
        button: 3,
        pressed: false,
        double_click: true,
        x: 10.0f32.to_bits(),
        y: 20.0f32.to_bits(),
    });
    let mut stream = b"\xDE\xAD\xBE\xEFgarbage".to_vec();
    stream.extend_from_slice(&first);
    stream.extend_from_slice(&second);

    let mut reader = MessageReader::new();
    assert!(reader.feed(&stream[..3]).is_empty());
    let commands = reader.feed(&stream[3..]);
    assert_eq!(
        commands,
        vec![
            InputCommand::Key {
                keycode: 32,
                unicode: 32,
                pressed: true
            },
            InputCommand::MouseButton {
                button: 3,
                pressed: false,
                double_click: true,
                x: 10.0f32.to_bits(),
                y: 20.0f32.to_bits()
            },
        ]
    );
}

#[test]
fn queue_drops_oldest_when_full() {
    let mut queue = InputQueue::new();
    for index in 0..QUEUE_CAPACITY + 10 {
        queue.push(InputCommand::Key {
            keycode: index as u32 + 1,
            unicode: 0,
            pressed: true,
        });
    }
    assert_eq!(queue.len(), QUEUE_CAPACITY);
    let drained = queue.take_all();
    assert_eq!(drained.len(), QUEUE_CAPACITY);
    assert_eq!(
        drained.first(),
        Some(&InputCommand::Key {
            keycode: 11,
            unicode: 0,
            pressed: true
        })
    );
    assert!(queue.take_all().is_empty());
}

#[test]
fn feeding_byte_by_byte_matches_feeding_at_once() {
    let mut stream = vec![1, 2, 3];
    for keycode in 1..5u32 {
        stream.extend_from_slice(&encode_message(InputCommand::Key {
            keycode,
            unicode: keycode,
            pressed: keycode % 2 == 0,
        }));
    }
    stream.extend_from_slice(&[0x31, 0x49]);
    let mut whole = MessageReader::new();
    let at_once = whole.feed(&stream);
    let mut split = MessageReader::new();
    let mut piecewise = Vec::new();
    for byte in &stream {
        piecewise.extend(split.feed(&[*byte]));
    }
    assert_eq!(at_once.len(), 4);
    assert_eq!(piecewise, at_once);
}

#[test]
fn reader_skips_oversized_length_and_drops_malformed_frames() {
    // Magic with a 65-byte length: the four magic bytes are skipped.
    let mut stream = vec![0x31, 0x49, 0x53, 0x47, 65, 0];
    // A complete frame whose payload is not an event: consumed, no command.
    stream.extend_from_slice(&[0x31, 0x49, 0x53, 0x47, 2, 0, 9, 9]);
    let valid = encode_message(InputCommand::Key {
        keycode: 7,
        unicode: 0,
        pressed: true,
    });
    stream.extend_from_slice(&valid);
    let mut reader = MessageReader::new();
    let commands = reader.feed(&stream);
    assert_eq!(
        commands,
        vec![InputCommand::Key {
            keycode: 7,
            unicode: 0,
            pressed: true
        }]
    );
    assert!(reader.feed(&[]).is_empty());
}

#[test]
fn parser_accepts_nonzero_flags_as_true_and_limits_payload() {
    let mut message = KEY_A.to_vec();
    message[7] = 9;
    assert_eq!(
        parse_datagram(&message),
        Some(InputCommand::Key {
            keycode: 65,
            unicode: 97,
            pressed: true
        })
    );
    let mut long = vec![0x31, 0x49, 0x53, 0x47, 65, 0];
    long.extend_from_slice(&[1; 65]);
    assert_eq!(parse_datagram(&long), None);
    assert_eq!(parse_datagram(&[0x31, 0x49, 0x53]), None);
    let infinite = encode_message(InputCommand::MouseButton {
        button: 9,
        pressed: true,
        double_click: false,
        x: f32::INFINITY.to_bits(),
        y: 0.0f32.to_bits(),
    });
    assert_eq!(parse_datagram(&infinite), None);
}

#[test]
fn injection_drops_invalid_keys_and_unscaled_mouse_events() {
    let key = InputCommand::Key {
        keycode: 0,
        unicode: 0,
        pressed: true,
    };
    assert_eq!(plan_injection(key, true), None);
    let big = InputCommand::Key {
        keycode: 0x8000_0000,
        unicode: 0,
        pressed: true,
    };
    assert_eq!(plan_injection(big, true), None);
    let wheel = InputCommand::MouseButton {
        button: 4,
        pressed: true,
        double_click: false,
        x: 1.0f32.to_bits(),
        y: 2.0f32.to_bits(),
    };
    assert_eq!(plan_injection(wheel, false), None);
    assert_eq!(
        plan_injection(wheel, true),
        Some(Injection::MouseButton {
            button: 4,
            pressed: true,
            double_click: false,
            x: 1.0f32.to_bits(),
            y: 2.0f32.to_bits(),
            wheel: true
        })
    );
    assert!(!viewport_scale_known(1920, 1080, 0, 720));
    assert!(viewport_scale_known(1920, 1080, 1280, 720));
}

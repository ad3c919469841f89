use chadow_launcher::ping::{
    frame_packet, handshake_payload, latency_millis, packet_length_ok, ping_result, read_var_int,
    status_json, status_request_payload, truncate_host, write_string, write_var_int, PingResult,
    StatusPlayers, StatusResponse, VarIntReader, VarIntStep,
};

fn encode(v: i32) -> Vec<u8> {
    let mut buf = Vec::new();
    write_var_int(&mut buf, v);
    buf
}

#[test]
fn var_int_known_encodings() {
    assert_eq!(encode(0), vec![0x00]);
    assert_eq!(encode(1), vec![0x01]);
    assert_eq!(encode(127), vec![0x7f]);
    assert_eq!(encode(128), vec![0x80, 0x01]);
    assert_eq!(encode(255), vec![0xff, 0x01]);
    assert_eq!(encode(300), vec![0xac, 0x02]);
    assert_eq!(encode(25565), vec![0xdd, 0xc7, 0x01]);
    assert_eq!(encode(2097151), vec![0xff, 0xff, 0x7f]);
    assert_eq!(encode(i32::MAX), vec![0xff, 0xff, 0xff, 0xff, 0x07]);
}

#[test]
fn var_int_appends_to_existing_bytes() {
    let mut buf = vec![9u8, 9u8];
    write_var_int(&mut buf, 47);
    assert_eq!(buf, vec![9, 9, 47]);
}

#[test]
fn var_int_roundtrip_on_concrete_values() {
    for v in [0, 1, 2, 127, 128, 255, 300, 16383, 16384, 25565, 65536, 2097151, 2097152, 268435455, 268435456, i32::MAX] {
        let mut bytes = encode(v);
        let len = bytes.len();
        bytes.extend_from_slice(&[0xaa, 0x01]);
        assert_eq!(read_var_int(&bytes), Some((v, len)));
    }
}

#[test]
fn var_int_read_incomplete() {
    assert_eq!(read_var_int(&[]), None);
    assert_eq!(read_var_int(&[0x80]), None);
    assert_eq!(read_var_int(&[0x80, 0x80, 0x80, 0x80, 0x80]), None);
}

#[test]
fn var_int_read_wraps_fifth_byte_into_sign() {
    // 0xff 0xff 0xff 0xff 0x0f is -1 as a two's complement i32.
    assert_eq!(read_var_int(&[0xff, 0xff, 0xff, 0xff, 0x0f]), Some((-1, 5)));
    // only the low four bits of the fifth byte fit
    assert_eq!(read_var_int(&[0x80, 0x80, 0x80, 0x80, 0x7f]), Some((-268435456, 5)));
}

#[test]
fn var_int_reader_step_by_step() {
    let r = VarIntReader::new();
    assert!(r.can_read());
    let r = match r.feed(0xac) {
        VarIntStep::More(next) => next,
        VarIntStep::Done(_) => panic!("expected more"),
    };
    match r.feed(0x02) {
        VarIntStep::Done(v) => assert_eq!(v, 300),
        VarIntStep::More(_) => panic!("expected the end"),
    }
}

#[test]
fn var_int_reader_stops_after_five_bytes() {
    let mut r = VarIntReader::new();
    for _ in 0..5 {
        r = match r.feed(0x80) {
            VarIntStep::More(next) => next,
            VarIntStep::Done(_) => panic!("expected more"),
        };
    }
    assert!(!r.can_read());
}

#[test]
fn write_string_prefixes_byte_length() {
    let mut buf = Vec::new();
    write_string(&mut buf, "héllo");
    assert_eq!(buf, vec![6, b'h', 0xc3, 0xa9, b'l', b'l', b'o']);
}

#[test]
fn truncate_host_cuts_at_255_bytes() {
    let short = "play.example.com";
    assert_eq!(truncate_host(short), short);
    let long = "a".repeat(300);
    assert_eq!(truncate_host(&long).len(), 255);
    let exact = "b".repeat(255);
    assert_eq!(truncate_host(&exact), exact.as_str());
}

#[test]
fn handshake_layout() {
    let payload = handshake_payload("mc.chadow.ru", 25565);
    let mut expected = vec![0x00, 47, 12];
    expected.extend_from_slice(b"mc.chadow.ru");
    expected.extend_from_slice(&[0x63, 0xdd]);
    expected.push(1);
    assert_eq!(payload, expected);
}

#[test]
fn status_request_and_framing() {
    assert_eq!(status_request_payload(), vec![0]);
    assert_eq!(frame_packet(&vec![0]), vec![1, 0]);
    let big = vec![7u8; 200];
    let framed = frame_packet(&big);
    assert_eq!(&framed[..2], &[0xc8, 0x01]);
    assert_eq!(framed.len(), 202);
}

#[test]
fn reply_length_limits() {
    assert!(!packet_length_ok(0));
    assert!(!packet_length_ok(-5));
    assert!(packet_length_ok(1));
    assert!(packet_length_ok(65536));
    assert!(!packet_length_ok(65537));
}

#[test]
fn status_json_slices_from_first_brace() {
    let payload = vec![0u8, 5, b'{', b'}'];
    assert_eq!(status_json(&payload), Some(vec![b'{', b'}']));
    let no_brace = vec![0u8, 1, 2];
    assert_eq!(status_json(&no_brace), Some(vec![1, 2]));
    assert_eq!(status_json(&vec![1u8, b'{']), None);
    assert_eq!(status_json(&vec![]), None);
}

#[test]
fn ping_result_clamps_negative_counts() {
    let r = ping_result(
        42,
        Some(StatusResponse { players: Some(StatusPlayers { online: -3, max: 20 }) }),
    );
    assert!(r.online);
    assert_eq!((r.players_online, r.players_max, r.latency_ms), (0, 20, 42));
    let r = ping_result(7, Some(StatusResponse { players: None }));
    assert_eq!((r.players_online, r.players_max, r.latency_ms), (0, 0, 7));
    let r = ping_result(9, None);
    assert!(r.online);
    assert_eq!(r.players_max, 0);
}

#[test]
fn offline_result_is_empty() {
    let r: PingResult = PingResult::offline();
    assert!(!r.online);
    assert_eq!((r.players_online, r.players_max, r.latency_ms), (0, 0, 0));
}

#[test]
fn latency_is_capped() {
    assert_eq!(latency_millis(12), 12);
    assert_eq!(latency_millis(u128::from(u32::MAX) + 10), u32::MAX);
}

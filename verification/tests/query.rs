use mcstatus::address::parse_address;
use mcstatus::address::Target;
use mcstatus::errors::AddressError;
use mcstatus::errors::ProtocolError;
use mcstatus::errors::QueryError;
use mcstatus::packet::try_read_frame;
use mcstatus::packet::FrameStatus;
use mcstatus::packet::DEFAULT_PORT;
use mcstatus::packet::PING_PAYLOAD;
use mcstatus::platform::minecraft_dir_location;
use mcstatus::platform::BaseDirKind;
use mcstatus::platform::Platform;
use mcstatus::render::entry_label;
use mcstatus::render::i64_dec;
use mcstatus::render::join_names;
use mcstatus::render::summary_line;
use mcstatus::render::u64_dec;
use mcstatus::session::Session;
use mcstatus::session::SessionState;
use mcstatus::status::parse_status;
use mcstatus::varint::encode_varint;

fn addr(s: &str) -> Result<Target, AddressError> {
    parse_address(&s.as_bytes().to_vec())
}

#[test]
fn address_without_port() {
    let t = addr("example.com").unwrap();
    assert_eq!(t.host, b"example.com".to_vec());
    assert_eq!(t.port, None);
}

#[test]
fn address_with_port() {
    let t = addr("example.com:25566").unwrap();
    assert_eq!(t.host, b"example.com".to_vec());
    assert_eq!(t.port, Some(25566));
}

#[test]
fn address_port_out_of_range() {
    assert_eq!(addr("example.com:99999"), Err(AddressError::InvalidPort));
}

#[test]
fn address_port_not_numeric() {
    assert_eq!(addr("example.com:abc"), Err(AddressError::InvalidPort));
}

#[test]
fn address_splits_at_last_colon() {
    let t = addr("odd:name:25570").unwrap();
    assert_eq!(t.host, b"odd:name".to_vec());
    assert_eq!(t.port, Some(25570));
}

#[test]
fn address_empty_host() {
    assert_eq!(addr(""), Err(AddressError::EmptyHost));
    assert_eq!(addr(":25565"), Err(AddressError::EmptyHost));
}

#[test]
fn address_empty_port_suffix() {
    assert_eq!(addr("example.com:"), Err(AddressError::InvalidPort));
}

fn status_doc(json: &str) -> Vec<u8> {
    json.as_bytes().to_vec()
}

#[test]
fn status_full_document() {
    let st = parse_status(&status_doc(
        r#"{"version":{"name":"1.20","protocol":763},"players":{"online":3,"max":20,"sample":[{"name":"Alice","id":"a"},{"name":"Bob","id":"b"}]},"description":{"text":"hi"}}"#,
    ))
    .unwrap();
    assert_eq!(st.players_online, 3);
    assert_eq!(st.players_max, 20);
    assert_eq!(st.sampled_names, vec![b"Alice".to_vec(), b"Bob".to_vec()]);
}

#[test]
fn status_sample_absent_null_empty_agree() {
    for doc in [
        r#"{"players":{"online":0,"max":10}}"#,
        r#"{"players":{"online":0,"max":10,"sample":null}}"#,
        r#"{"players":{"online":0,"max":10,"sample":[]}}"#,
    ] {
        let st = parse_status(&status_doc(doc)).unwrap();
        assert_eq!(st.sampled_names.len(), 0, "for {doc}");
    }
}

#[test]
fn status_missing_max_fails() {
    assert!(parse_status(&status_doc(r#"{"players":{"online":3}}"#)).is_err());
}

#[test]
fn status_missing_players_fails() {
    assert!(parse_status(&status_doc(r#"{"version":{"protocol":5}}"#)).is_err());
}

#[test]
fn status_fractional_online_fails() {
    assert!(parse_status(&status_doc(r#"{"players":{"online":3.5,"max":20}}"#)).is_err());
}

#[test]
fn status_string_online_fails() {
    assert!(parse_status(&status_doc(r#"{"players":{"online":"3","max":20}}"#)).is_err());
}

#[test]
fn status_negative_counts_parse() {
    let st = parse_status(&status_doc(r#"{"players":{"online":-1,"max":-1}}"#)).unwrap();
    assert_eq!(st.players_online, -1);
    assert_eq!(st.players_max, -1);
}

#[test]
fn status_escapes_decode() {
    let st = parse_status(&status_doc(
        r#"{"players":{"online":1,"max":2,"sample":[{"name":"A§b\n\"q\"","id":"x"}]},"motd":"😀"}"#,
    ))
    .unwrap();
    assert_eq!(st.sampled_names[0], b"A\xc2\xa7b\n\"q\"".to_vec());
}

#[test]
fn status_whitespace_tolerated() {
    let st = parse_status(&status_doc(
        " \t{\r\n \"players\" : { \"online\" : 7 , \"max\" : 9 } }\n",
    ))
    .unwrap();
    assert_eq!(st.players_online, 7);
    assert_eq!(st.players_max, 9);
}

#[test]
fn status_trailing_garbage_fails() {
    assert!(parse_status(&status_doc(r#"{"players":{"online":1,"max":2}}x"#)).is_err());
}

#[test]
fn status_malformed_json_fails() {
    for doc in [
        "",
        "{",
        r#"{"players":{"online":1,"max":2}"#,
        r#"{"players":{"online":01,"max":2}}"#,
        r#"{"players":{"online":1,"max":2},}"#,
        "[1,2]",
    ] {
        assert!(parse_status(&status_doc(doc)).is_err(), "accepted {doc:?}");
    }
}

#[test]
fn status_huge_integer_fails() {
    assert!(parse_status(&status_doc(
        r#"{"players":{"online":99999999999999999999,"max":2}}"#
    ))
    .is_err());
}

fn status_packet_payload(json: &str) -> Vec<u8> {
    let doc = json.as_bytes();
    let mut p = encode_varint(doc.len() as u32);
    p.extend_from_slice(doc);
    p
}

fn be64(v: u64) -> Vec<u8> {
    v.to_be_bytes().to_vec()
}

/// Drive a whole session against scripted server answers.
fn run_session(pong_payload: Vec<u8>) -> (Session, mcstatus::status::StatusResponse, Result<bool, ProtocolError>) {
    let target = addr("play.example.org:25570").unwrap();
    let mut session = Session::new(&target);
    assert_eq!(session.state, SessionState::Disconnected);
    assert_eq!(session.port, 25570);
    session.on_connected().unwrap();
    assert_eq!(session.state, SessionState::Connected);

    let opening = session.status_request().unwrap();
    assert_eq!(session.state, SessionState::StatusSent);
    // the opening bytes are two frames: the handshake, then the status request
    match try_read_frame(&opening) {
        FrameStatus::Frame(id, payload, consumed) => {
            assert_eq!(id, 0);
            // protocol version -1, address, port 25570 big-endian, next state 1
            let mut expected = encode_varint(u32::MAX);
            expected.extend_from_slice(&encode_varint(16));
            expected.extend_from_slice(b"play.example.org");
            expected.extend_from_slice(&[(25570u16 >> 8) as u8, (25570 & 0xFF) as u8]);
            expected.extend_from_slice(&encode_varint(1));
            assert_eq!(payload, expected);
            let rest = opening[consumed..].to_vec();
            match try_read_frame(&rest) {
                FrameStatus::Frame(id2, payload2, consumed2) => {
                    assert_eq!(id2, 0);
                    assert_eq!(payload2.len(), 0);
                    assert_eq!(consumed2, rest.len());
                }
                other => panic!("expected the status request frame, got {other:?}"),
            }
        }
        other => panic!("expected the handshake frame, got {other:?}"),
    }

    let payload = status_packet_payload(
        r#"{"players":{"online":3,"max":20,"sample":[{"name":"Alice","id":"a"},{"name":"Bob","id":"b"}]}}"#,
    );
    let st = session.on_status_packet(0, &payload).unwrap();
    assert_eq!(session.state, SessionState::StatusReceived);

    let ping = session.ping_request().unwrap();
    assert_eq!(session.state, SessionState::Pinged);
    match try_read_frame(&ping) {
        FrameStatus::Frame(id, payload, consumed) => {
            assert_eq!(id, 1);
            assert_eq!(payload, be64(PING_PAYLOAD));
            assert_eq!(consumed, ping.len());
        }
        other => panic!("expected the ping frame, got {other:?}"),
    }

    let pong = session.on_pong_packet(1, &pong_payload);
    assert_eq!(session.state, SessionState::Closed);
    (session, st, pong)
}

#[test]
fn three_of_twenty_with_sample() {
    let (_s, st, pong) = run_session(be64(PING_PAYLOAD));
    assert_eq!(st.players_online, 3);
    assert_eq!(st.players_max, 20);
    assert_eq!(pong, Ok(true));
    assert_eq!(summary_line(&st), b"3/20 online:".to_vec());
    assert_eq!(join_names(&st.sampled_names), b"Alice Bob".to_vec());
}

#[test]
fn ping_mismatch_keeps_status() {
    let (_s, st, pong) = run_session(be64(0xDEADBEEF));
    assert_eq!(st.players_online, 3);
    assert_eq!(st.players_max, 20);
    assert_eq!(pong, Ok(false));
    assert_eq!(summary_line(&st), b"3/20 online:".to_vec());
}

#[test]
fn session_rejects_wrong_status_packet_id() {
    let target = addr("h").unwrap();
    let mut session = Session::new(&target);
    assert_eq!(session.port, DEFAULT_PORT);
    session.on_connected().unwrap();
    session.status_request().unwrap();
    let payload = status_packet_payload(r#"{"players":{"online":1,"max":2}}"#);
    assert_eq!(
        session.on_status_packet(3, &payload),
        Err(ProtocolError::UnexpectedPacket {
            expected: 0,
            found: 3
        })
    );
    assert_eq!(session.state, SessionState::Closed);
}

#[test]
fn session_rejects_out_of_order_events() {
    let target = addr("h").unwrap();
    let mut session = Session::new(&target);
    assert_eq!(session.ping_request(), Err(ProtocolError::WrongState));
    assert_eq!(session.state, SessionState::Closed);
    assert_eq!(session.on_connected(), Err(ProtocolError::WrongState));
}

#[test]
fn session_rejects_bad_status_payload() {
    let target = addr("h").unwrap();
    let mut session = Session::new(&target);
    session.on_connected().unwrap();
    session.status_request().unwrap();
    // string length claims more bytes than the payload holds
    let mut payload = encode_varint(100);
    payload.extend_from_slice(b"{}");
    assert!(session.on_status_packet(0, &payload).is_err());
    assert_eq!(session.state, SessionState::Closed);
}

#[test]
fn render_decimals() {
    assert_eq!(u64_dec(0), b"0".to_vec());
    assert_eq!(u64_dec(25565), b"25565".to_vec());
    assert_eq!(i64_dec(-5), b"-5".to_vec());
    assert_eq!(i64_dec(i64::MIN), b"-9223372036854775808".to_vec());
    assert_eq!(i64_dec(i64::MAX), b"9223372036854775807".to_vec());
}

#[test]
fn render_summary_without_sample() {
    let st = parse_status(&status_doc(r#"{"players":{"online":0,"max":10}}"#)).unwrap();
    assert_eq!(summary_line(&st), b"0/10 online".to_vec());
    assert_eq!(join_names(&st.sampled_names), Vec::<u8>::new());
}

#[test]
fn status_error_variants() {
    assert_eq!(
        parse_status(&status_doc("{")),
        Err(ProtocolError::BadStatusJson)
    );
    assert_eq!(
        parse_status(&status_doc("{}")),
        Err(ProtocolError::MissingStatusField)
    );
}

#[test]
fn selection_label_format() {
    assert_eq!(
        entry_label(&b"Home".to_vec(), &b"home.example:25566".to_vec()),
        b"Home (address: home.example:25566)".to_vec()
    );
}

#[test]
fn platform_directory_locations() {
    let (k, n) = minecraft_dir_location(Platform::Windows);
    assert_eq!(k, BaseDirKind::Data);
    assert_eq!(n, b".minecraft".to_vec());
    let (k, n) = minecraft_dir_location(Platform::MacOs);
    assert_eq!(k, BaseDirKind::Data);
    assert_eq!(n, b"minecraft".to_vec());
    let (k, n) = minecraft_dir_location(Platform::Other);
    assert_eq!(k, BaseDirKind::Home);
    assert_eq!(n, b".minecraft".to_vec());
}

#[test]
fn query_error_taxonomy_distinguishes_cancellation() {
    let cancelled = QueryError::Cancelled;
    let timeout = QueryError::Timeout;
    assert_ne!(cancelled, timeout);
    assert_ne!(
        QueryError::Address(AddressError::EmptyHost),
        QueryError::Connect
    );
}

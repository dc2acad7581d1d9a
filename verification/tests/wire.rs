use mcstatus::errors::DecodeError;
use mcstatus::errors::ProtocolError;
use mcstatus::nbt::decode_servers;
use mcstatus::packet::try_read_frame;
use mcstatus::packet::FrameStatus;
use mcstatus::varint::decode_varint;
use mcstatus::varint::encode_varint;

fn be16(n: u16) -> Vec<u8> {
    vec![(n >> 8) as u8, (n & 0xFF) as u8]
}

fn be32(n: u32) -> Vec<u8> {
    vec![(n >> 24) as u8, (n >> 16) as u8, (n >> 8) as u8, n as u8]
}

fn nbt_str_payload(s: &[u8]) -> Vec<u8> {
    let mut v = be16(s.len() as u16);
    v.extend_from_slice(s);
    v
}

/// A named string field inside a compound.
fn field_str(name: &[u8], val: &[u8]) -> Vec<u8> {
    let mut v = vec![8u8];
    v.extend_from_slice(&nbt_str_payload(name));
    v.extend_from_slice(&nbt_str_payload(val));
    v
}

/// A named byte-array field inside a compound.
fn field_bytes(name: &[u8], val: &[u8]) -> Vec<u8> {
    let mut v = vec![7u8];
    v.extend_from_slice(&nbt_str_payload(name));
    v.extend_from_slice(&be32(val.len() as u32));
    v.extend_from_slice(val);
    v
}

/// One server compound payload from (name, ip) plus any extra fields.
fn server_compound(name: &[u8], ip: &[u8], extra: &[Vec<u8>]) -> Vec<u8> {
    let mut v = Vec::new();
    v.extend_from_slice(&field_str(b"name", name));
    for e in extra {
        v.extend_from_slice(e);
    }
    v.extend_from_slice(&field_str(b"ip", ip));
    v.push(0);
    v
}

/// A whole servers.dat document from server compound payloads.
fn servers_doc(entries: &[Vec<u8>]) -> Vec<u8> {
    let mut v = vec![10u8];
    v.extend_from_slice(&nbt_str_payload(b""));
    v.push(9);
    v.extend_from_slice(&nbt_str_payload(b"servers"));
    v.push(10);
    v.extend_from_slice(&be32(entries.len() as u32));
    for e in entries {
        v.extend_from_slice(e);
    }
    v.push(0);
    v
}

#[test]
fn varint_round_trip_values() {
    for v in [0u32, 1, 127, 128, 255, 300, 16383, 16384, 2097151, 2147483647, u32::MAX] {
        let enc = encode_varint(v);
        assert!(enc.len() <= 5);
        let (dec, n) = decode_varint(&enc, 0).unwrap();
        assert_eq!(dec, v);
        assert_eq!(n, enc.len());
    }
}

#[test]
fn varint_known_encodings() {
    assert_eq!(encode_varint(0), vec![0x00]);
    assert_eq!(encode_varint(1), vec![0x01]);
    assert_eq!(encode_varint(128), vec![0x80, 0x01]);
    assert_eq!(encode_varint(25565), vec![0xDD, 0xC7, 0x01]);
}

#[test]
fn varint_five_continuation_bytes_fail() {
    let bytes = vec![0x80u8, 0x80, 0x80, 0x80, 0x80];
    assert_eq!(
        decode_varint(&bytes, 0),
        Err(ProtocolError::BadVarInt { offset: 0 })
    );
}

#[test]
fn varint_truncated_fails() {
    let bytes = vec![0x80u8, 0x80];
    assert!(decode_varint(&bytes, 0).is_err());
}

#[test]
fn decode_two_servers_in_order() {
    let doc = servers_doc(&[
        server_compound(b"Alpha", b"alpha.example:25566", &[]),
        server_compound(b"Beta", b"beta.example", &[field_bytes(b"icon", &[1, 2, 3])]),
    ]);
    let list = decode_servers(&doc).unwrap();
    assert_eq!(list.entries.len(), 2);
    assert_eq!(list.entries[0].name, b"Alpha".to_vec());
    assert_eq!(list.entries[0].address, b"alpha.example:25566".to_vec());
    assert_eq!(list.entries[1].name, b"Beta".to_vec());
    assert_eq!(list.entries[1].address, b"beta.example".to_vec());
}

#[test]
fn decode_empty_server_list() {
    let doc = servers_doc(&[]);
    let list = decode_servers(&doc).unwrap();
    assert_eq!(list.entries.len(), 0);
}

#[test]
fn decode_skips_unknown_fields() {
    let extra = vec![
        field_bytes(b"icon", &[9u8; 64]),
        {
            // a "hidden" byte field
            let mut v = vec![1u8];
            v.extend_from_slice(&nbt_str_payload(b"hidden"));
            v.push(1);
            v
        },
    ];
    let doc = servers_doc(&[server_compound(b"One", b"one.example", &extra)]);
    let list = decode_servers(&doc).unwrap();
    assert_eq!(list.entries.len(), 1);
    assert_eq!(list.entries[0].address, b"one.example".to_vec());
}

#[test]
fn decode_missing_ip_fails() {
    let mut entry = Vec::new();
    entry.extend_from_slice(&field_str(b"name", b"NoIp"));
    entry.push(0);
    let doc = servers_doc(&[entry]);
    assert!(decode_servers(&doc).is_err());
}

#[test]
fn decode_missing_servers_fails() {
    let mut doc = vec![10u8];
    doc.extend_from_slice(&nbt_str_payload(b""));
    doc.push(0);
    assert_eq!(
        decode_servers(&doc),
        Err(DecodeError::MissingField {
            field: mcstatus::errors::FieldName::Servers
        })
    );
}

#[test]
fn decode_non_string_name_fails() {
    let mut entry = Vec::new();
    entry.push(1u8); // byte tag named "name"
    entry.extend_from_slice(&nbt_str_payload(b"name"));
    entry.push(7);
    entry.extend_from_slice(&field_str(b"ip", b"x.example"));
    entry.push(0);
    let doc = servers_doc(&[entry]);
    assert!(decode_servers(&doc).is_err());
}

#[test]
fn decode_negative_list_count_fails() {
    let mut doc = vec![10u8];
    doc.extend_from_slice(&nbt_str_payload(b""));
    doc.push(9);
    doc.extend_from_slice(&nbt_str_payload(b"servers"));
    doc.push(10);
    doc.extend_from_slice(&[0xFF, 0xFF, 0xFF, 0xFF]);
    doc.push(0);
    assert!(decode_servers(&doc).is_err());
}

#[test]
fn decode_wrong_root_tag_fails() {
    let doc = vec![9u8, 0, 0];
    assert_eq!(
        decode_servers(&doc),
        Err(DecodeError::UnexpectedTag {
            offset: 0,
            found: 9
        })
    );
}

#[test]
fn decode_trailing_bytes_fail() {
    let mut doc = servers_doc(&[server_compound(b"A", b"a.example", &[])]);
    doc.push(0);
    assert!(matches!(
        decode_servers(&doc),
        Err(DecodeError::TrailingData { .. })
    ));
}

#[test]
fn decode_every_truncation_fails() {
    let doc = servers_doc(&[
        server_compound(b"Alpha", b"alpha.example", &[field_bytes(b"icon", &[5, 6])]),
        server_compound(b"Beta", b"beta.example:25570", &[]),
    ]);
    assert!(decode_servers(&doc).is_ok());
    for k in 0..doc.len() {
        let prefix = doc[..k].to_vec();
        assert!(
            decode_servers(&prefix).is_err(),
            "prefix of length {k} unexpectedly decoded"
        );
    }
}

#[test]
fn frame_round_trip() {
    let payload = vec![1u8, 2, 3, 4];
    let frame = mcstatus::packet::build_frame(0x42, &payload);
    match try_read_frame(&frame) {
        FrameStatus::Frame(id, p, consumed) => {
            assert_eq!(id, 0x42);
            assert_eq!(p, payload);
            assert_eq!(consumed, frame.len());
        }
        other => panic!("expected a frame, got {other:?}"),
    }
}

#[test]
fn frame_incomplete_then_complete() {
    let payload = vec![7u8; 300];
    let frame = mcstatus::packet::build_frame(0, &payload);
    for cut in [0usize, 1, 2, frame.len() - 1] {
        let part = frame[..cut].to_vec();
        assert!(matches!(try_read_frame(&part), FrameStatus::Incomplete));
    }
}

#[test]
fn frame_oversized_length_rejected() {
    // a VarInt length far past the accepted maximum
    let buf = encode_varint(0x0FFF_FFFF);
    match try_read_frame(&buf) {
        FrameStatus::Bad(ProtocolError::OversizedFrame { length }) => {
            assert_eq!(length, 0x0FFF_FFFF)
        }
        other => panic!("expected oversized-frame error, got {other:?}"),
    }
}

use mc_http::parser::{is_ping_host_message, Buffer, ParseError, UnifiedHandshakeFormat};

fn varint(mut v: u32) -> Vec<u8> {
    let mut out = Vec::new();
    loop {
        let byte = (v & 0x7f) as u8;
        v >>= 7;
        if v == 0 {
            out.push(byte);
            return out;
        }
        out.push(byte | 0x80);
    }
}

fn modern(hostname: &[u8]) -> Vec<u8> {
    let mut body = Vec::new();
    body.extend(varint(0)); // packet id
    body.extend(varint(765)); // protocol version
    body.extend(varint(hostname.len() as u32));
    body.extend_from_slice(hostname);
    body.extend_from_slice(&25565u16.to_be_bytes());
    body.extend(varint(1)); // next state
    let mut out = varint(body.len() as u32);
    out.extend(body);
    out
}

fn utf16_string(units: &[u16]) -> Vec<u8> {
    let mut out = (units.len() as u16).to_be_bytes().to_vec();
    for u in units {
        out.extend_from_slice(&u.to_be_bytes());
    }
    out
}

fn legacy(message: &str, hostname_units: &[u16]) -> Vec<u8> {
    let mut out = vec![0xfe, 0x01, 0xfa];
    out.extend(utf16_string(&message.encode_utf16().collect::<Vec<u16>>()));
    out.extend_from_slice(&[0x00, 0x10]); // payload length
    out.push(0x4a); // protocol version
    out.extend(utf16_string(hostname_units));
    out.extend_from_slice(&25565u32.to_be_bytes());
    out
}

fn hostname(r: Result<Option<UnifiedHandshakeFormat>, ParseError>) -> Result<Option<String>, ParseError> {
    r.map(|o| o.map(|h| h.hostname))
}

#[test]
fn modern_handshake_gives_hostname() {
    let bytes = modern(b"mc.example.com");
    assert_eq!(hostname(UnifiedHandshakeFormat::from_bytes(&bytes)), Ok(Some("mc.example.com".to_string())));
}

#[test]
fn modern_handshake_with_trailing_bytes_is_not_a_handshake() {
    let mut bytes = modern(b"mc.example.com");
    bytes.push(0);
    assert_eq!(hostname(UnifiedHandshakeFormat::from_bytes(&bytes)), Ok(None));
}

#[test]
fn truncated_modern_handshake_is_not_a_handshake() {
    let bytes = modern(b"mc.example.com");
    for cut in 3..bytes.len() {
        assert_eq!(
            hostname(UnifiedHandshakeFormat::from_bytes(&bytes[..cut])),
            Ok(None),
            "cut at {}",
            cut
        );
    }
}

#[test]
fn fewer_than_three_bytes_are_not_a_handshake() {
    assert_eq!(hostname(UnifiedHandshakeFormat::from_bytes(&[])), Ok(None));
    assert_eq!(hostname(UnifiedHandshakeFormat::from_bytes(&[0x10, 0x00])), Ok(None));
}

#[test]
fn overlong_varint_is_not_a_handshake() {
    let bytes = [0xff, 0xff, 0xff, 0xff, 0xff, 0x01, 0x00];
    assert_eq!(hostname(UnifiedHandshakeFormat::from_bytes(&bytes)), Ok(None));
}

#[test]
fn invalid_utf8_hostname_is_not_a_handshake() {
    let bytes = modern(&[0x61, 0xff, 0x62]);
    assert_eq!(hostname(UnifiedHandshakeFormat::from_bytes(&bytes)), Ok(None));
}

#[test]
fn negative_string_length_runs_past_the_buffer() {
    // packet length, packet id, protocol version, then a string length of -1
    let bytes = [0x05, 0x00, 0x00, 0xff, 0xff, 0xff, 0xff, 0x0f, 0x61];
    assert_eq!(hostname(UnifiedHandshakeFormat::from_bytes(&bytes)), Ok(None));
}

#[test]
fn legacy_handshake_gives_hostname() {
    let host: Vec<u16> = "play.example.com".encode_utf16().collect();
    let bytes = legacy("MC|PingHost", &host);
    assert_eq!(hostname(UnifiedHandshakeFormat::from_bytes(&bytes)), Ok(Some("play.example.com".to_string())));
}

#[test]
fn legacy_handshake_with_trailing_bytes_is_not_a_handshake() {
    let host: Vec<u16> = "play.example.com".encode_utf16().collect();
    let mut bytes = legacy("MC|PingHost", &host);
    bytes.push(1);
    assert_eq!(hostname(UnifiedHandshakeFormat::from_bytes(&bytes)), Ok(None));
}

#[test]
fn legacy_handshake_with_other_message_is_not_a_handshake() {
    let host: Vec<u16> = "play.example.com".encode_utf16().collect();
    let bytes = legacy("MC|Ping", &host);
    assert_eq!(hostname(UnifiedHandshakeFormat::from_bytes(&bytes)), Ok(None));
}

#[test]
fn legacy_handshake_with_lone_surrogate_is_not_a_handshake() {
    let bytes = legacy("MC|PingHost", &[0x0061, 0xd800]);
    assert_eq!(hostname(UnifiedHandshakeFormat::from_bytes(&bytes)), Ok(None));
}

#[test]
fn legacy_handshake_without_port_is_not_a_handshake() {
    let host: Vec<u16> = "h".encode_utf16().collect();
    let bytes = legacy("MC|PingHost", &host);
    assert_eq!(hostname(UnifiedHandshakeFormat::from_bytes(&bytes[..bytes.len() - 1])), Ok(None));
}

#[test]
fn http_request_is_not_a_handshake() {
    assert_eq!(hostname(UnifiedHandshakeFormat::from_bytes(b"GET / HTTP/1.1\r\n\r\n")), Ok(None));
}

#[test]
fn buffer_advance_and_peek() {
    let data = [1u8, 2, 3, 4, 5];
    let mut buf = Buffer::new(&data);
    assert_eq!(buf.peek(2), Ok(&data[..2]));
    assert_eq!(buf.peek(6), Err(ParseError::EndOfBufferWhilePeeking));
    assert_eq!(buf.advance(2), Ok(&data[..2]));
    assert_eq!(buf.left(), 3);
    assert_eq!(buf.advance(4), Err(ParseError::EndOfBufferWhileAdvancing));
    assert_eq!(buf.left(), 3);
    assert_eq!(buf.next_byte(), Ok(3));
    assert_eq!(buf.next_n::<2>(), Ok([4, 5]));
    assert_eq!(buf.left(), 0);
    assert_eq!(buf.next_byte(), Err(ParseError::EndOfBufferWhileAdvancing));
    assert_eq!(buf.next_n::<1>(), Err(ParseError::EndOfBufferWhileAdvancing));
}

#[test]
fn varint_values() {
    let cases: [(&[u8], i32); 6] = [
        (&[0x00], 0),
        (&[0x01], 1),
        (&[0x7f], 127),
        (&[0x80, 0x01], 128),
        (&[0xac, 0x02], 300),
        (&[0xff, 0xff, 0xff, 0xff, 0x0f], -1),
    ];
    for (bytes, value) in cases {
        let mut buf = Buffer::new(bytes);
        assert_eq!(buf.next_varint(), Ok(value));
        assert_eq!(buf.left(), 0);
    }
    let mut buf = Buffer::new(&[0xff, 0xff, 0xff, 0xff, 0x07, 0x09]);
    assert_eq!(buf.next_varint(), Ok(i32::MAX));
    assert_eq!(buf.left(), 1);
}

#[test]
fn varint_errors() {
    let mut buf = Buffer::new(&[0x80, 0x80]);
    assert_eq!(buf.next_varint(), Err(ParseError::EndOfBufferWhileAdvancing));
    let mut buf = Buffer::new(&[0x80, 0x80, 0x80, 0x80, 0x80]);
    assert_eq!(buf.next_varint(), Err(ParseError::EndOfBufferWhileAdvancing));
    let mut buf = Buffer::new(&[0x80, 0x80, 0x80, 0x80, 0x80, 0x00]);
    assert_eq!(buf.next_varint(), Err(ParseError::VarIntTooBig));
}

#[test]
fn strings() {
    let mut data = vec![0x03];
    data.extend_from_slice(b"abc");
    data.extend(utf16_string(&"hé".encode_utf16().collect::<Vec<u16>>()));
    data.push(0x99);
    let mut buf = Buffer::new(&data);
    assert_eq!(buf.next_string_utf8(), Ok("abc".to_string()));
    assert_eq!(buf.next_string_utf16(), Ok("hé".to_string()));
    assert_eq!(buf.left(), 1);
}

#[test]
fn ping_host_message() {
    assert!(is_ping_host_message(&"MC|PingHost".to_string()));
    assert!(!is_ping_host_message(&"MC|PingHos".to_string()));
    assert!(!is_ping_host_message(&String::new()));
}

#[test]
fn string_decoding_errors() {
    let mut buf = Buffer::new(&[0x02, 0xc3, 0x28]);
    assert_eq!(buf.next_string_utf8(), Err(ParseError::InvalidUtf8));
    assert_eq!(buf.left(), 0);
    let mut buf = Buffer::new(&[0x00, 0x01, 0xdc, 0x00, 0x07]);
    assert_eq!(buf.next_string_utf16(), Err(ParseError::InvalidUtf16));
    assert_eq!(buf.left(), 1);
}

#[test]
fn varint_round_trip() {
    let values = [0i32, 1, 127, 128, 255, 300, 16383, 16384, 2097151, 2097152, 268435455, 268435456, i32::MAX, -1, -2, i32::MIN];
    for x in values {
        let mut bytes = varint(x as u32);
        assert!(bytes.len() <= 5);
        bytes.extend_from_slice(&[0xaa, 0xbb]);
        let mut buf = Buffer::new(&bytes);
        assert_eq!(buf.next_varint(), Ok(x), "value {}", x);
        assert_eq!(buf.left(), 2);
    }
}

#[test]
fn buffer_left_counts_consumed_bytes() {
    let data = [9u8; 20];
    let mut buf = Buffer::new(&data);
    let _ = buf.advance(3).unwrap();
    assert_eq!(buf.left(), 17);
    let _ = buf.peek(5).unwrap();
    assert_eq!(buf.left(), 17);
    let _ = buf.next_byte().unwrap();
    let _ = buf.next_n::<4>().unwrap();
    assert_eq!(buf.left(), 20 - 3 - 1 - 4);
    assert_eq!(buf.left(), 12);
}

#[test]
fn long_hostname_round_trip() {
    let host = "a".repeat(300);
    let bytes = modern(host.as_bytes());
    assert_eq!(hostname(UnifiedHandshakeFormat::from_bytes(&bytes)), Ok(Some(host)));
}

#[test]
fn supplementary_characters_round_trip_in_both_formats() {
    let host = "h\u{1F600}.\u{e9}x";
    let bytes = modern(host.as_bytes());
    assert_eq!(hostname(UnifiedHandshakeFormat::from_bytes(&bytes)), Ok(Some(host.to_string())));
    let units: Vec<u16> = host.encode_utf16().collect();
    let bytes = legacy("MC|PingHost", &units);
    assert_eq!(hostname(UnifiedHandshakeFormat::from_bytes(&bytes)), Ok(Some(host.to_string())));
}

#[test]
fn reversed_surrogate_pair_is_not_a_handshake() {
    let bytes = legacy("MC|PingHost", &[0xde00, 0xd83d]);
    assert_eq!(hostname(UnifiedHandshakeFormat::from_bytes(&bytes)), Ok(None));
}

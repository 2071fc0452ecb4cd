use codecrafters_dns_server::message::DomainName;
use codecrafters_dns_server::{Cursor, Error};

fn decode_at(buf: &[u8], pos: usize) -> Result<String, Error> {
    let mut c = Cursor::at(buf, pos);
    DomainName::new(&mut c).map(|n| n.0)
}

#[test]
fn mod_it_serializes_domain_name() {
    let name = DomainName("google.com".into());
    let expected = b"\x06google\x03com\x00".to_vec();
    assert_eq!(name.as_bytes(), expected);
}

#[test]
fn question_it_serializes_domain_name() {
    let name = DomainName("google.com".into());
    let expected = b"\x06google\x03com\x00".to_vec();
    assert_eq!(name.as_bytes(), expected);
}

#[test]
fn name_round_trips_through_the_wire() {
    for text in ["codecrafters.io", "a.b.c.d", "x", "example.co.uk"] {
        let bytes = DomainName(text.to_string()).as_bytes();
        let mut c = Cursor::new(&bytes);
        let back = DomainName::new(&mut c).unwrap();
        assert_eq!(back.0, text);
        assert_eq!(c.pos, bytes.len());
    }
}

#[test]
fn round_trip_with_longest_label() {
    let label = "a".repeat(63);
    let text = format!("{label}.com");
    let bytes = DomainName(text.clone()).as_bytes();
    assert_eq!(bytes[0], 63);
    assert_eq!(decode_at(&bytes, 0).unwrap(), text);
}

#[test]
fn pointer_resolves_to_earlier_name() {
    let mut buf = vec![0u8; 12];
    buf.extend_from_slice(b"\x06google\x03com\x00");
    let second = buf.len();
    buf.extend_from_slice(&[0xC0, 0x0C]);
    let mut c = Cursor::at(&buf, second);
    let name = DomainName::new(&mut c).unwrap();
    assert_eq!(name.0, "google.com");
    assert_eq!(c.pos, second + 2);
}

#[test]
fn labels_before_a_pointer_are_kept() {
    let mut buf = vec![0u8; 12];
    buf.extend_from_slice(b"\x06google\x03com\x00");
    let second = buf.len();
    buf.extend_from_slice(b"\x03www\xC0\x0C");
    assert_eq!(decode_at(&buf, second).unwrap(), "www.google.com");
}

#[test]
fn pointer_at_pointer_target_is_not_followed() {
    // The target holds another pointer; it is read as a plain length of 0xC0,
    // for which the buffer is too short.
    let buf = [0xC0u8, 0x02, 0xC0, 0x00];
    assert_eq!(decode_at(&buf, 0), Err(Error::UnexpectedEnd));
}

#[test]
fn invalid_utf8_label_is_dropped() {
    let buf = b"\x03abc\x01\xff\x03com\x00";
    assert_eq!(decode_at(buf, 0).unwrap(), "abc.com");
}

#[test]
fn multibyte_label_is_decoded() {
    let buf = b"\x02\xc3\xa9\x02fr\x00";
    assert_eq!(decode_at(buf, 0).unwrap(), "\u{e9}.fr");
}

#[test]
fn truncated_name_is_an_error() {
    assert_eq!(decode_at(b"\x06goo", 0), Err(Error::UnexpectedEnd));
    assert_eq!(decode_at(b"\x03com", 0), Err(Error::UnexpectedEnd));
    assert_eq!(decode_at(b"", 0), Err(Error::UnexpectedEnd));
    assert_eq!(decode_at(b"\xC0", 0), Err(Error::UnexpectedEnd));
}

#[test]
fn empty_name_and_trailing_dot_encode_every_part() {
    assert_eq!(DomainName(String::new()).as_bytes(), vec![0, 0]);
    assert_eq!(DomainName("com.".into()).as_bytes(), b"\x03com\x00\x00".to_vec());
}

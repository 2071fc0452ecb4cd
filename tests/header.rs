use codecrafters_dns_server::{Cursor, Error, Header, OpCode, Qr, Rcode};

#[test]
fn test_header_encodes_exactly() {
    let h = Header::test();
    assert_eq!(
        h.as_bytes(),
        [0x04, 0xD2, 0x80, 0x00, 0x00, 0x00, 0x00, 0x00, 0x00, 0x00, 0x00, 0x00]
    );
}

#[test]
fn header_decodes_every_field() {
    let bytes = [0x12, 0x34, 0b1001_0111, 0b1011_0011, 0, 1, 0, 2, 0, 3, 0, 4];
    let mut c = Cursor::new(&bytes);
    let h = Header::new(&mut c).unwrap();
    assert_eq!(c.pos, 12);
    assert_eq!(h.id.0, 0x1234);
    assert_eq!(h.qr, Qr::Reply);
    assert_eq!(h.opcode, OpCode::Status);
    assert!(h.aa.0 && h.tc.0 && h.rd.0);
    assert!(h.ra.0 && h.ad.0 && h.cd.0);
    assert_eq!(h.rcode, Rcode::NonexistentDomain);
    assert_eq!(h.num_of_qs(), 1);
    assert_eq!(h.num_of_an(), 2);
    assert_eq!(h.num_of_authorities, 3);
    assert_eq!(h.num_of_additionals, 4);
    assert_eq!(h.as_bytes(), bytes);
}

#[test]
fn unknown_opcode_and_rcode() {
    let bytes = [0, 0, 0b0011_1000, 0b0000_1111, 0, 0, 0, 0, 0, 0, 0, 0];
    let h = Header::new(&mut Cursor::new(&bytes)).unwrap();
    assert_eq!(h.opcode, OpCode::Unknown(0b0011_1000));
    assert_eq!(h.rcode, Rcode::NotImplemented);
    assert_eq!(h.as_bytes()[2], 0b0011_1000);
    assert_eq!(h.as_bytes()[3], 0b0000_0100);
}

#[test]
fn short_header_is_an_error() {
    let bytes = [0u8; 11];
    assert_eq!(Header::new(&mut Cursor::new(&bytes)).err(), Some(Error::UnexpectedEnd));
}

#[test]
fn reply_shell_keeps_id_opcode_and_rd() {
    let bytes = [0xAB, 0xCD, 0b0000_0001, 0b1000_0000, 0, 5, 0, 5, 0, 5, 0, 5];
    let q = Header::new(&mut Cursor::new(&bytes)).unwrap();
    let r = Header::copy_from(q);
    assert_eq!(
        r.as_bytes(),
        [0xAB, 0xCD, 0x81, 0x00, 0, 0, 0, 0, 0, 0, 0, 0]
    );
    let bytes = [0, 7, 0b0001_0000, 0, 0, 0, 0, 0, 0, 0, 0, 0];
    let status = Header::new(&mut Cursor::new(&bytes)).unwrap();
    let r = Header::copy_from(status);
    assert_eq!(r.rcode, Rcode::NotImplemented);
    assert_eq!(r.opcode, OpCode::Status);
    assert_eq!(r.as_bytes()[2], 0x90);
    assert_eq!(r.as_bytes()[3], 0x04);
}

#[test]
fn error_and_query_headers() {
    assert_eq!(Header::error().as_bytes(), [0, 0, 0x80, 0x02, 0, 0, 0, 0, 0, 0, 0, 0]);
    let q = Header::new_query(0x0102);
    assert_eq!(q.as_bytes(), [1, 2, 0, 0, 0, 0, 0, 0, 0, 0, 0, 0]);
    assert_eq!(q.set_qs(1).set_an(2).as_bytes()[4..8], [0, 1, 0, 2]);
}

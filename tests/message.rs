use codecrafters_dns_server::message::DomainName;
use codecrafters_dns_server::{
    Answer, Error, Header, Message, Question, Rcode, Rdata, RecordType,
};

/// A query for `name` of type A, class IN, under transaction id `id`.
fn query_bytes(id: u16, names: &[&str], rtype: u16) -> Vec<u8> {
    let mut b = vec![(id >> 8) as u8, id as u8, 0x01, 0x00, 0, names.len() as u8, 0, 0, 0, 0, 0, 0];
    for n in names {
        b.extend(DomainName(n.to_string()).as_bytes());
        b.extend([(rtype >> 8) as u8, rtype as u8, 0, 1]);
    }
    b
}

#[test]
fn question_encodes_name_type_and_class() {
    let q = Question::test();
    let mut expected = b"\x0ccodecrafters\x02io\x00".to_vec();
    expected.extend([0, 1, 0, 1]);
    assert_eq!(q.as_bytes(), expected);
}

#[test]
fn answer_encodes_every_field() {
    let a = Answer::test();
    let mut expected = b"\x0ccodecrafters\x02io\x00".to_vec();
    expected.extend([0, 1, 0, 1, 0, 0, 0, 60, 0, 4, 8, 8, 8, 8]);
    assert_eq!(a.as_bytes(), expected);
}

#[test]
fn message_decodes_and_encodes() {
    let bytes = query_bytes(0x4242, &["codecrafters.io"], 1);
    let m = Message::decode(&bytes).unwrap();
    assert_eq!(m.id(), 0x4242);
    assert_eq!(m.questions.len(), 1);
    assert_eq!(m.questions[0].name.0, "codecrafters.io");
    assert_eq!(m.questions[0].rtype, RecordType::A);
    assert_eq!(m.questions[0].class, 1);
    assert_eq!(m.as_bytes(), bytes);
}

#[test]
fn class_is_read_as_in() {
    let mut bytes = query_bytes(1, &["a.b"], 5);
    let n = bytes.len();
    bytes[n - 1] = 3;
    let m = Message::decode(&bytes).unwrap();
    assert_eq!(m.questions[0].class, 1);
    assert_eq!(m.questions[0].rtype, RecordType::Cname);
}

#[test]
fn answers_decode_after_questions() {
    let msg = Message::query(9, &Question::test()).set_answer(Answer::test());
    let bytes = msg.as_bytes();
    let m = Message::decode(&bytes).unwrap();
    assert_eq!(m.answers.len(), 1);
    assert_eq!(m.answers[0].name.0, "codecrafters.io");
    assert_eq!(m.answers[0].ttl, 60);
    assert_eq!(m.answers[0].data, Rdata::A([8, 8, 8, 8]));
    assert_eq!(m.as_bytes(), bytes);
}

#[test]
fn compressed_question_name() {
    let mut bytes = query_bytes(7, &["google.com"], 1);
    bytes[5] = 2;
    bytes.extend([0xC0, 0x0C, 0, 1, 0, 1]);
    let m = Message::decode(&bytes).unwrap();
    assert_eq!(m.questions[1].name.0, "google.com");
}

#[test]
fn unknown_record_type_is_an_error() {
    let bytes = query_bytes(1, &["example.com"], 28);
    assert_eq!(Message::decode(&bytes).err(), Some(Error::UnknownRecordType(28)));
    let bytes = query_bytes(1, &["example.com"], 0);
    assert_eq!(Message::decode(&bytes).err(), Some(Error::UnknownRecordType(0)));
}

#[test]
fn every_record_type_code() {
    for code in 1u16..=16 {
        let t = RecordType::from_bytes(code.to_be_bytes()).unwrap();
        assert_eq!(t.as_bytes(), code.to_be_bytes());
    }
    assert_eq!(RecordType::from_bytes([0, 17]), Err(Error::UnknownRecordType(17)));
}

#[test]
fn missing_question_is_an_error() {
    let mut bytes = query_bytes(1, &["example.com"], 1);
    bytes[5] = 2;
    assert_eq!(Message::decode(&bytes).err(), Some(Error::UnexpectedEnd));
}

#[test]
fn truncated_buffer_is_an_error() {
    assert_eq!(Message::decode(&[0, 1, 2, 3]).err(), Some(Error::UnexpectedEnd));
}

#[test]
fn counts_follow_interleaved_appends() {
    let m = Message::error()
        .set_question(Question::test())
        .set_answer(Answer::test())
        .set_question(Question::test())
        .set_answer(Answer::test())
        .set_answer(Answer::test());
    let bytes = m.as_bytes();
    assert_eq!(bytes[4..8], [0, 2, 0, 3]);
    assert_eq!(m.header.num_of_qs(), 2);
    assert_eq!(m.header.num_of_an(), 3);
}

#[test]
fn reply_echoes_questions() {
    let bytes = query_bytes(0x0102, &["a.com", "b.org"], 1);
    let r = Message::reply(Message::decode(&bytes).unwrap());
    assert_eq!(r.questions.len(), 2);
    assert_eq!(r.answers.len(), 0);
    let out = r.as_bytes();
    assert_eq!(out[..12], [1, 2, 0x81, 0, 0, 2, 0, 0, 0, 0, 0, 0]);
    assert_eq!(out[12..], bytes[12..]);
}

#[test]
fn query_holds_one_question() {
    let q = Message::query(0xBEEF, &Question::test());
    let out = q.as_bytes();
    assert_eq!(out[..12], [0xBE, 0xEF, 0, 0, 0, 1, 0, 0, 0, 0, 0, 0]);
    assert_eq!(out[12..], Question::test().as_bytes()[..]);
}

#[test]
fn error_message_is_empty_server_failure() {
    let e = Message::error();
    assert_eq!(e.header.rcode, Rcode::ServerErr);
    assert_eq!(e.as_bytes(), Header::error().as_bytes().to_vec());
}

#[test]
fn local_answer_copies_the_question() {
    let q = Question { name: DomainName("x.y".into()), rtype: RecordType::Mx, class: 1 };
    let a = Answer::from_question(&q);
    assert_eq!(a.name.0, "x.y");
    assert_eq!(a.rtype, RecordType::Mx);
    assert_eq!(a.ttl, 60);
    assert_eq!(a.data, Rdata::A([8, 8, 8, 8]));
    let b = Answer::from(&q);
    assert_eq!(b.as_bytes(), a.as_bytes());
    assert_eq!(b.class, 1);
}

use codecrafters_dns_server::message::DomainName;
use codecrafters_dns_server::{
    reply_locally, Answer, Error, Forwarding, Message, Question, Rcode, Rdata, RecordType,
};

fn query_bytes(id: u16, names: &[&str]) -> Vec<u8> {
    let mut b = vec![(id >> 8) as u8, id as u8, 0x01, 0x00, 0, names.len() as u8, 0, 0, 0, 0, 0, 0];
    for n in names {
        b.extend(DomainName(n.to_string()).as_bytes());
        b.extend([0, 1, 0, 1]);
    }
    b
}

fn upstream_answer(name: &str, addr: [u8; 4]) -> Answer {
    Answer {
        name: DomainName(name.to_string()),
        rtype: RecordType::A,
        class: 1,
        ttl: 300,
        data: Rdata::A(addr),
    }
}

#[test]
fn local_reply_answers_each_question() {
    let bytes = query_bytes(0x1111, &["codecrafters.io"]);
    let r = reply_locally(&bytes);
    assert_eq!(r.id(), 0x1111);
    assert_eq!(r.header.num_of_qs(), 1);
    assert_eq!(r.header.num_of_an(), 1);
    let a = &r.answers[0];
    assert_eq!(a.name.0, "codecrafters.io");
    assert_eq!(a.rtype, RecordType::A);
    assert_eq!(a.ttl, 60);
    assert_eq!(a.data, Rdata::A([8, 8, 8, 8]));
    let out = r.as_bytes();
    assert_eq!(out[..12], [0x11, 0x11, 0x81, 0, 0, 1, 0, 1, 0, 0, 0, 0]);
}

#[test]
fn local_reply_to_two_questions() {
    let bytes = query_bytes(5, &["a.com", "b.com"]);
    let r = reply_locally(&bytes);
    assert_eq!(r.answers.len(), 2);
    assert_eq!(r.answers[0].name.0, "a.com");
    assert_eq!(r.answers[1].name.0, "b.com");
}

#[test]
fn truncated_datagram_gets_error_message() {
    let r = reply_locally(&[0x12, 0x34, 0x01, 0x00]);
    assert_eq!(r.id(), 0);
    assert_eq!(r.header.rcode, Rcode::ServerErr);
    assert_eq!(r.header.num_of_qs(), 0);
    assert_eq!(r.header.num_of_an(), 0);
    assert_eq!(r.as_bytes(), vec![0, 0, 0x80, 0x02, 0, 0, 0, 0, 0, 0, 0, 0]);
    let f = Forwarding::start(&[0x12, 0x34, 0x01, 0x00]);
    assert!(f.next_query().is_none());
    assert_eq!(f.finish().as_bytes(), vec![0, 0, 0x80, 0x02, 0, 0, 0, 0, 0, 0, 0, 0]);
}

#[test]
fn unsupported_type_gets_error_message() {
    let mut bytes = query_bytes(3, &["a.com"]);
    let n = bytes.len();
    bytes[n - 3] = 28;
    let r = reply_locally(&bytes);
    assert_eq!(r.header.rcode, Rcode::ServerErr);
    assert_eq!(r.id(), 0);
}

#[test]
fn forwarding_sends_one_query_per_question() {
    let bytes = query_bytes(100, &["a.com", "b.com", "c.com"]);
    let mut f = Forwarding::start(&bytes);
    let mut ids = vec![];
    let mut i = 0u8;
    while let Some(q) = f.next_query() {
        ids.push(q.id());
        assert_eq!(q.questions.len(), 1);
        assert_eq!(q.header.num_of_qs(), 1);
        // The upstream answers question i with two addresses.
        let name = q.questions[0].name.0.clone();
        let resp = Message::query(q.id(), &q.questions[0])
            .set_answer(upstream_answer(&name, [10, 0, 0, i]))
            .set_answer(upstream_answer(&name, [10, 0, 1, i]));
        f = f.accept(&resp.as_bytes()).unwrap();
        i += 1;
    }
    assert_eq!(ids, vec![100, 101, 102]);
    let reply = f.finish();
    assert_eq!(reply.id(), 100);
    assert_eq!(reply.questions.len(), 3);
    assert_eq!(reply.answers.len(), 6);
    let names: Vec<&str> = reply.answers.iter().map(|a| a.name.0.as_str()).collect();
    assert_eq!(names, ["a.com", "a.com", "b.com", "b.com", "c.com", "c.com"]);
    assert_eq!(reply.answers[3].data, Rdata::A([10, 0, 1, 1]));
    assert_eq!(reply.answers[5].ttl, 300);
    assert_eq!(reply.as_bytes()[6..8], [0, 6]);
}

#[test]
fn forwarded_ids_wrap() {
    let bytes = query_bytes(0xFFFF, &["a.com", "b.com"]);
    let f = Forwarding::start(&bytes);
    assert_eq!(f.next_query().unwrap().id(), 0xFFFF);
    let resp = Message::query(0xFFFF, &Question::test()).as_bytes();
    let f = f.accept(&resp).unwrap();
    assert_eq!(f.next_query().unwrap().id(), 0);
}

#[test]
fn undecodable_upstream_reply_is_an_error() {
    let bytes = query_bytes(1, &["a.com"]);
    let f = Forwarding::start(&bytes);
    assert_eq!(f.accept(&[1, 2, 3]).err().map(|_| ()), Some(()));
    let f = Forwarding::start(&bytes);
    assert!(matches!(f.accept(&[0; 5]), Err(Error::UnexpectedEnd)));
}

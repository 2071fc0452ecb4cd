use super::question::Question;
use super::{name_wire, parse_name, DomainName, RecordType};
use crate::error::Error;
use crate::utils::{
    be16_bytes, be32, be32_bytes, read_2_bytes, read_4_bytes, take, u16_to_be, u32_from_be,
    u32_to_be, Cursor,
};
use vstd::prelude::*;
use vstd::string::StringExecFns;

verus! {

/// The time to live, in seconds, of an answer made up locally.
pub const LOCAL_TTL: u32 = 60;

/// One resource record of the answer section.
#[derive(Debug)]
pub struct Answer {
    pub name: DomainName,
    pub rtype: RecordType,
    pub class: u16,
    pub ttl: u32,
    pub data: Rdata,
}

/// The data of a record; only an IPv4 address is modelled.
#[derive(Debug, Clone, Copy, PartialEq, Eq)]
pub enum Rdata {
    A([u8; 4]),
}

/// What an answer holds, with the name as text and the data as its bytes.
pub ghost struct AnswerView {
    pub name: Seq<char>,
    pub rtype: RecordType,
    pub class: u16,
    pub ttl: u32,
    pub data: Seq<u8>,
}

impl View for Rdata {
    type V = Seq<u8>;

    open spec fn view(&self) -> Seq<u8> {
        match self {
            Rdata::A(bytes) => bytes@,
        }
    }
}

impl View for Answer {
    type V = AnswerView;

    open spec fn view(&self) -> AnswerView {
        AnswerView {
            name: self.name@,
            rtype: self.rtype,
            class: self.class,
            ttl: self.ttl,
            data: self.data@,
        }
    }
}

/// The address that locally made answers carry: 8.8.8.8.
pub open spec fn local_address() -> Seq<u8> {
    seq![8u8, 8u8, 8u8, 8u8]
}

/// The answer made up locally for a question: same name, type and class, a
/// time to live of sixty seconds and the fixed address.
pub open spec fn local_answer(q: super::question::QuestionView) -> AnswerView {
    AnswerView { name: q.name, rtype: q.rtype, class: q.class, ttl: LOCAL_TTL, data: local_address() }
}

/// The wire form of an answer; the data length is computed from the data.
pub open spec fn answer_wire(a: AnswerView) -> Seq<u8> {
    name_wire(a.name) + be16_bytes(a.rtype.spec_code()) + be16_bytes(a.class) + be32_bytes(a.ttl)
        + be16_bytes((a.data.len() % 65536) as u16) + a.data
}

/// Decoding an answer at `p` in `b`. After the name and the type come the
/// class (taken as IN), the time to live, the data length (read and not
/// checked) and four bytes of address.
pub open spec fn parse_answer(b: Seq<u8>, p: int) -> Result<(AnswerView, int), Error> {
    match parse_name(b, p) {
        Err(e) => Err(e),
        Ok((name, end_name)) => match take(b, end_name, 2) {
            None => Err(Error::UnexpectedEnd),
            Some(t) => match RecordType::parse(t[0], t[1]) {
                Err(e) => Err(e),
                Ok(rtype) => match take(b, end_name + 2, 12) {
                    None => Err(Error::UnexpectedEnd),
                    Some(rest) => Ok(
                        (
                            AnswerView {
                                name,
                                rtype,
                                class: 1,
                                ttl: be32(rest.subrange(2, 6)),
                                data: rest.subrange(8, 12),
                            },
                            end_name + 14,
                        ),
                    ),
                },
            },
        },
    }
}

impl Rdata {
    fn len(&self) -> (r: u16)
        ensures
            r as int == self@.len(),
    {
        match self {
            Rdata::A(_) => 4,
        }
    }

    fn as_bytes(&self) -> (r: Vec<u8>)
        ensures
            r@ == self@,
    {
        match self {
            Rdata::A(bytes) => {
                let r = vec![bytes[0], bytes[1], bytes[2], bytes[3]];
                assert(r@ =~= bytes@);
                r
            },
        }
    }
}

impl<'a> From<&'a Question> for Answer {
    fn from(q: &'a Question) -> (r: Self) {
        Answer {
            name: DomainName(q.name.0.clone()),
            rtype: q.rtype,
            class: q.class,
            ttl: LOCAL_TTL,
            data: Rdata::A([8, 8, 8, 8]),
        }
    }
}

impl<'a> vstd::std_specs::convert::FromSpecImpl<&'a Question> for Answer {
    open spec fn obeys_from_spec() -> bool {
        true
    }

    open spec fn from_spec(q: &'a Question) -> Answer {
        Answer {
            name: DomainName(q.name.0),
            rtype: q.rtype,
            class: q.class,
            ttl: LOCAL_TTL,
            data: Rdata::A([8u8, 8u8, 8u8, 8u8]),
        }
    }
}

impl Answer {
    /// A type-A answer for `codecrafters.io` with the fixed address.
    pub fn test() -> (r: Self)
        ensures
            r@ == (AnswerView {
                name: "codecrafters.io"@,
                rtype: RecordType::A,
                class: 1,
                ttl: LOCAL_TTL,
                data: local_address(),
            }),
    {
        let r = Answer {
            name: DomainName(String::from_str("codecrafters.io")),
            rtype: RecordType::A,
            class: 1,
            ttl: LOCAL_TTL,
            data: Rdata::A([8, 8, 8, 8]),
        };
        assert(r.data@ =~= local_address());
        r
    }

    /// The answer made up locally for `q`.
    pub fn from_question(q: &Question) -> (r: Self)
        ensures
            r@ == local_answer(q@),
    {
        let r = Answer::from(q);
        assert(r.data@ =~= local_address());
        r
    }

    /// Decodes an answer from the cursor.
    pub fn new(cursor: &mut Cursor) -> (res: Result<Self, Error>)
        ensures
            final(cursor).buf@ == old(cursor).buf@,
            match parse_answer(old(cursor).buf@, old(cursor).pos as int) {
                Ok((a, p)) => res is Ok && res->Ok_0@ == a && final(cursor).pos == p,
                Err(e) => res == Err::<Answer, Error>(e),
            },
    {
        let name = match DomainName::new(cursor) {
            Ok(x) => x,
            Err(e) => return Err(e),
        };
        let ghost end_name = cursor.pos as int;
        let ghost b = cursor.buf@;
        let bytes = match read_2_bytes(cursor) {
            Ok(x) => x,
            Err(e) => return Err(e),
        };
        let rtype = match RecordType::from_bytes(bytes) {
            Ok(x) => x,
            Err(e) => return Err(e),
        };
        match read_2_bytes(cursor) {
            Ok(_) => {},
            Err(e) => return Err(e),
        }
        let ttl_bytes = match read_4_bytes(cursor) {
            Ok(x) => x,
            Err(e) => return Err(e),
        };
        let ttl = u32_from_be(ttl_bytes);
        match read_2_bytes(cursor) {
            Ok(_) => {},
            Err(e) => return Err(e),
        }
        let data = match read_4_bytes(cursor) {
            Ok(x) => x,
            Err(e) => return Err(e),
        };
        proof {
            let rest = b.subrange(end_name + 2, end_name + 14);
            assert(ttl_bytes@ =~= rest.subrange(2, 6));
            assert(data@ =~= rest.subrange(8, 12));
        }
        Ok(Answer { name, rtype, class: 1, ttl, data: Rdata::A(data) })
    }

    /// The wire bytes of this answer.
    pub fn as_bytes(&self) -> (r: Vec<u8>)
        ensures
            r@ == answer_wire(self@),
    {
        let mut out = self.name.as_bytes();
        let t = self.rtype.as_bytes();
        let c = u16_to_be(self.class);
        let ttl = u32_to_be(self.ttl);
        let len = u16_to_be(self.data.len());
        out.push(t[0]);
        out.push(t[1]);
        out.push(c[0]);
        out.push(c[1]);
        out.push(ttl[0]);
        out.push(ttl[1]);
        out.push(ttl[2]);
        out.push(ttl[3]);
        out.push(len[0]);
        out.push(len[1]);
        let mut data = self.data.as_bytes();
        out.append(&mut data);
        proof {
            assert(out@ =~= answer_wire(self@));
        }
        out
    }
}

} // verus!

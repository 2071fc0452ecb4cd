use super::{name_wire, parse_name, DomainName, RecordType};
use crate::error::Error;
use crate::utils::{be16_bytes, read_2_bytes, take, u16_to_be, Cursor};
use vstd::prelude::*;
use vstd::string::StringExecFns;

verus! {

/// One entry of the question section: a name, a record type and a class.
#[derive(Debug)]
pub struct Question {
    pub name: DomainName,
    pub rtype: RecordType,
    pub class: u16,
}

/// What a question holds, with the name as text.
pub ghost struct QuestionView {
    pub name: Seq<char>,
    pub rtype: RecordType,
    pub class: u16,
}

impl View for Question {
    type V = QuestionView;

    open spec fn view(&self) -> QuestionView {
        QuestionView { name: self.name@, rtype: self.rtype, class: self.class }
    }
}

/// The wire form of a question.
pub open spec fn question_wire(q: QuestionView) -> Seq<u8> {
    name_wire(q.name) + be16_bytes(q.rtype.spec_code()) + be16_bytes(q.class)
}

/// Decoding a question at `p` in `b`: the class bytes are read and the class
/// is taken as IN (1) whatever they hold.
pub open spec fn parse_question(b: Seq<u8>, p: int) -> Result<(QuestionView, int), Error> {
    match parse_name(b, p) {
        Err(e) => Err(e),
        Ok((name, end_name)) => match take(b, end_name, 2) {
            None => Err(Error::UnexpectedEnd),
            Some(t) => match RecordType::parse(t[0], t[1]) {
                Err(e) => Err(e),
                Ok(rtype) => match take(b, end_name + 2, 2) {
                    None => Err(Error::UnexpectedEnd),
                    Some(_) => Ok((QuestionView { name, rtype, class: 1 }, end_name + 4)),
                },
            },
        },
    }
}

impl Clone for Question {
    fn clone(&self) -> (r: Self)
        ensures
            r@ == self@,
    {
        Question { name: self.name.clone(), rtype: self.rtype, class: self.class }
    }
}

impl Question {
    /// A type-A, class-IN question for `codecrafters.io`.
    pub fn test() -> (r: Self)
        ensures
            r@ == (QuestionView { name: "codecrafters.io"@, rtype: RecordType::A, class: 1 }),
    {
        Question {
            name: DomainName(String::from_str("codecrafters.io")),
            rtype: RecordType::A,
            class: 1,
        }
    }

    /// Decodes a question from the cursor.
    pub fn new(cursor: &mut Cursor) -> (res: Result<Self, Error>)
        ensures
            final(cursor).buf@ == old(cursor).buf@,
            match parse_question(old(cursor).buf@, old(cursor).pos as int) {
                Ok((q, p)) => res is Ok && res->Ok_0@ == q && final(cursor).pos == p,
                Err(e) => res == Err::<Question, Error>(e),
            },
    {
        let name = match DomainName::new(cursor) {
            Ok(x) => x,
            Err(e) => return Err(e),
        };
        let bytes = match read_2_bytes(cursor) {
            Ok(x) => x,
            Err(e) => return Err(e),
        };
        let rtype = match RecordType::from_bytes(bytes) {
            Ok(x) => x,
            Err(e) => return Err(e),
        };
        match read_2_bytes(cursor) {
            Ok(_) => {},
            Err(e) => return Err(e),
        }
        Ok(Question { name, rtype, class: 1 })
    }

    /// The wire bytes of this question.
    pub fn as_bytes(&self) -> (r: Vec<u8>)
        ensures
            r@ == question_wire(self@),
    {
        let mut out = self.name.as_bytes();
        let t = self.rtype.as_bytes();
        let c = u16_to_be(self.class);
        out.push(t[0]);
        out.push(t[1]);
        out.push(c[0]);
        out.push(c[1]);
        proof {
            assert(out@ =~= question_wire(self@));
        }
        out
    }

    pub fn name(&self) -> (r: &DomainName)
        ensures
            r == &self.name,
    {
        &self.name
    }

    pub fn rtype(&self) -> (r: RecordType)
        ensures
            r == self.rtype,
    {
        self.rtype
    }

    pub fn class(&self) -> (r: u16)
        ensures
            r == self.class,
    {
        self.class
    }
}

} // verus!

use crate::error::Error;
use crate::utils::{be16, be16_bytes, u16_from_be, u16_to_be, Cursor};
use vstd::prelude::*;

pub mod answer;
pub mod header;
pub mod name;
pub mod name_proofs;
pub mod question;

pub use answer::{answer_wire, local_answer, parse_answer, Answer, AnswerView, Rdata};
pub use name::{name_wire, parse_name, DomainName};
pub use header::{
    header_wire, parse_header, spec_error_header, spec_query_header, spec_reply_header, Header,
};
pub use question::{parse_question, question_wire, Question, QuestionView};

verus! {

/// `acc` put before the items of a successful read.
pub open spec fn after<T>(acc: Seq<T>, r: Result<(Seq<T>, int), Error>) -> Result<
    (Seq<T>, int),
    Error,
> {
    match r {
        Ok((ls, q)) => Ok((acc + ls, q)),
        Err(e) => Err(e),
    }
}

/// The record types of the standard set, with codes one to sixteen.
#[derive(Debug, Clone, Copy, PartialEq, Eq, Structural)]
pub enum RecordType {
    A,
    Ns,
    Md,
    Mf,
    Cname,
    Soa,
    Mb,
    Mg,
    Mr,
    Null,
    Wks,
    Ptr,
    Hinfo,
    Minfo,
    Mx,
    Txt,
}

impl RecordType {
    pub open spec fn spec_code(&self) -> u16 {
        match self {
            RecordType::A => 1,
            RecordType::Ns => 2,
            RecordType::Md => 3,
            RecordType::Mf => 4,
            RecordType::Cname => 5,
            RecordType::Soa => 6,
            RecordType::Mb => 7,
            RecordType::Mg => 8,
            RecordType::Mr => 9,
            RecordType::Null => 10,
            RecordType::Wks => 11,
            RecordType::Ptr => 12,
            RecordType::Hinfo => 13,
            RecordType::Minfo => 14,
            RecordType::Mx => 15,
            RecordType::Txt => 16,
        }
    }

    /// The record type with code `c`, if it is one of the set.
    pub open spec fn spec_from_code(c: u16) -> Option<RecordType> {
        if 1 <= c <= 16 {
            Some(choose|t: RecordType| t.spec_code() == c)
        } else {
            None
        }
    }

    /// Decoding a record type from the two bytes of its code.
    pub open spec fn parse(hi: u8, lo: u8) -> Result<RecordType, Error> {
        match Self::spec_from_code(be16(hi, lo)) {
            Some(t) => Ok(t),
            None => Err(Error::UnknownRecordType(be16(hi, lo))),
        }
    }

    fn as_u16(&self) -> (r: u16)
        ensures
            r == self.spec_code(),
    {
        match self {
            RecordType::A => 1,
            RecordType::Ns => 2,
            RecordType::Md => 3,
            RecordType::Mf => 4,
            RecordType::Cname => 5,
            RecordType::Soa => 6,
            RecordType::Mb => 7,
            RecordType::Mg => 8,
            RecordType::Mr => 9,
            RecordType::Null => 10,
            RecordType::Wks => 11,
            RecordType::Ptr => 12,
            RecordType::Hinfo => 13,
            RecordType::Minfo => 14,
            RecordType::Mx => 15,
            RecordType::Txt => 16,
        }
    }

    pub fn as_bytes(&self) -> (r: [u8; 2])
        ensures
            r@ == be16_bytes(self.spec_code()),
    {
        u16_to_be(self.as_u16())
    }

    /// The record type whose code the two bytes hold, or the error that names
    /// an unsupported code.
    pub fn from_bytes(bytes: [u8; 2]) -> (r: Result<Self, Error>)
        ensures
            r == Self::parse(bytes[0], bytes[1]),
    {
        let code = u16_from_be(bytes);
        let r = match code {
            1 => RecordType::A,
            2 => RecordType::Ns,
            3 => RecordType::Md,
            4 => RecordType::Mf,
            5 => RecordType::Cname,
            6 => RecordType::Soa,
            7 => RecordType::Mb,
            8 => RecordType::Mg,
            9 => RecordType::Mr,
            10 => RecordType::Null,
            11 => RecordType::Wks,
            12 => RecordType::Ptr,
            13 => RecordType::Hinfo,
            14 => RecordType::Minfo,
            15 => RecordType::Mx,
            16 => RecordType::Txt,
            _ => return Err(Error::UnknownRecordType(code)),
        };
        proof {
            lemma_code_unique(r, Self::spec_from_code(code)->0);
        }
        Ok(r)
    }
}

/// Distinct record types have distinct codes.
proof fn lemma_code_unique(s: RecordType, t: RecordType)
    requires
        s.spec_code() == t.spec_code(),
    ensures
        s == t,
{
}

/// A whole DNS message: a header, then its questions and its answers.
#[derive(Debug)]
pub struct Message {
    pub header: Header,
    pub questions: Vec<Question>,
    pub answers: Vec<Answer>,
}

/// What a message holds.
pub ghost struct MessageView {
    pub header: Header,
    pub questions: Seq<QuestionView>,
    pub answers: Seq<AnswerView>,
}

impl View for Message {
    type V = MessageView;

    open spec fn view(&self) -> MessageView {
        MessageView {
            header: self.header,
            questions: self.questions@.map_values(|q: Question| q@),
            answers: self.answers@.map_values(|a: Answer| a@),
        }
    }
}

/// A length as a sixteen-bit count field holds it.
pub open spec fn count16(n: nat) -> u16 {
    (n % 65536) as u16
}

impl MessageView {
    /// The header's question and answer counts are the section lengths.
    pub open spec fn wf(self) -> bool {
        &&& self.header.num_of_qs == count16(self.questions.len())
        &&& self.header.num_of_an == count16(self.answers.len())
    }

    /// The message with `q` appended and the question count recomputed.
    pub open spec fn with_question(self, q: QuestionView) -> MessageView {
        MessageView {
            header: Header { num_of_qs: count16(self.questions.len() + 1), ..self.header },
            questions: self.questions.push(q),
            ..self
        }
    }

    /// The message with `a` appended and the answer count recomputed.
    pub open spec fn with_answer(self, a: AnswerView) -> MessageView {
        MessageView {
            header: Header { num_of_an: count16(self.answers.len() + 1), ..self.header },
            answers: self.answers.push(a),
            ..self
        }
    }
}

pub open spec fn questions_wire(qs: Seq<QuestionView>) -> Seq<u8>
    decreases qs.len(),
{
    if qs.len() == 0 {
        Seq::empty()
    } else {
        questions_wire(qs.drop_last()) + question_wire(qs.last())
    }
}

pub open spec fn answers_wire(xs: Seq<AnswerView>) -> Seq<u8>
    decreases xs.len(),
{
    if xs.len() == 0 {
        Seq::empty()
    } else {
        answers_wire(xs.drop_last()) + answer_wire(xs.last())
    }
}

/// The wire form of a message: header, questions in order, answers in order.
pub open spec fn message_wire(m: MessageView) -> Seq<u8> {
    header_wire(m.header) + questions_wire(m.questions) + answers_wire(m.answers)
}

/// `n` questions read one after another from `p`.
pub open spec fn parse_questions(b: Seq<u8>, p: int, n: nat) -> Result<
    (Seq<QuestionView>, int),
    Error,
>
    decreases n,
{
    if n == 0 {
        Ok((Seq::empty(), p))
    } else {
        match parse_question(b, p) {
            Err(e) => Err(e),
            Ok((q, end_header)) => after(seq![q], parse_questions(b, end_header, (n - 1) as nat)),
        }
    }
}

/// `n` answers read one after another from `p`.
pub open spec fn parse_answers(b: Seq<u8>, p: int, n: nat) -> Result<
    (Seq<AnswerView>, int),
    Error,
>
    decreases n,
{
    if n == 0 {
        Ok((Seq::empty(), p))
    } else {
        match parse_answer(b, p) {
            Err(e) => Err(e),
            Ok((a, end_header)) => after(seq![a], parse_answers(b, end_header, (n - 1) as nat)),
        }
    }
}

proof fn lemma_parse_questions_len(b: Seq<u8>, p: int, n: nat)
    ensures
        parse_questions(b, p, n) is Ok ==> parse_questions(b, p, n)->Ok_0.0.len() == n,
    decreases n,
{
    if n > 0 {
        if let Ok((_, end_header)) = parse_question(b, p) {
            lemma_parse_questions_len(b, end_header, (n - 1) as nat);
        }
    }
}

proof fn lemma_parse_answers_len(b: Seq<u8>, p: int, n: nat)
    ensures
        parse_answers(b, p, n) is Ok ==> parse_answers(b, p, n)->Ok_0.0.len() == n,
    decreases n,
{
    if n > 0 {
        if let Ok((_, end_header)) = parse_answer(b, p) {
            lemma_parse_answers_len(b, end_header, (n - 1) as nat);
        }
    }
}

/// A decoded message is well formed: it holds exactly as many questions and
/// answers as its header counts.
pub proof fn lemma_decoded_wf(b: Seq<u8>)
    ensures
        parse_message(b) is Ok ==> parse_message(b)->Ok_0.wf(),
{
    if let Ok((h, end_header)) = parse_header(b, 0) {
        lemma_parse_questions_len(b, end_header, h.num_of_qs as nat);
        if let Ok((_, end_questions)) = parse_questions(b, end_header, h.num_of_qs as nat) {
            lemma_parse_answers_len(b, end_questions, h.num_of_an as nat);
        }
    }
}

/// Decoding a whole buffer: the header, then as many questions and answers as
/// its counts give. Bytes after the last answer are ignored.
pub open spec fn parse_message(b: Seq<u8>) -> Result<MessageView, Error> {
    match parse_header(b, 0) {
        Err(e) => Err(e),
        Ok((h, end_header)) => match parse_questions(b, end_header, h.num_of_qs as nat) {
            Err(e) => Err(e),
            Ok((qs, end_questions)) => match parse_answers(b, end_questions, h.num_of_an as nat) {
                Err(e) => Err(e),
                Ok((xs, _)) => Ok(MessageView { header: h, questions: qs, answers: xs }),
            },
        },
    }
}

/// The reply shell of a message: its reply header and its questions, with
/// no answers yet.
pub open spec fn reply_view(m: MessageView) -> MessageView {
    MessageView {
        header: Header {
            num_of_qs: count16(m.questions.len()),
            ..spec_reply_header(m.header)
        },
        questions: m.questions,
        answers: Seq::empty(),
    }
}

/// The single-question query forwarded upstream under id `id`.
pub open spec fn query_view(id: u16, q: QuestionView) -> MessageView {
    MessageView {
        header: Header { num_of_qs: 1, ..spec_query_header(id) },
        questions: seq![q],
        answers: Seq::empty(),
    }
}

/// The message sent back for a datagram that cannot be decoded.
pub open spec fn error_view() -> MessageView {
    MessageView { header: spec_error_header(), questions: Seq::empty(), answers: Seq::empty() }
}

/// One append to a message: a question or an answer.
pub ghost enum Append {
    Question(QuestionView),
    Answer(AnswerView),
}

/// `m` after the appends, in order.
pub open spec fn apply_appends(m: MessageView, ops: Seq<Append>) -> MessageView
    decreases ops.len(),
{
    if ops.len() == 0 {
        m
    } else {
        let prev = apply_appends(m, ops.drop_last());
        match ops.last() {
            Append::Question(q) => prev.with_question(q),
            Append::Answer(a) => prev.with_answer(a),
        }
    }
}

/// The questions among the appends, in order.
pub open spec fn appended_questions(ops: Seq<Append>) -> Seq<QuestionView>
    decreases ops.len(),
{
    if ops.len() == 0 {
        Seq::empty()
    } else {
        match ops.last() {
            Append::Question(q) => appended_questions(ops.drop_last()).push(q),
            Append::Answer(_) => appended_questions(ops.drop_last()),
        }
    }
}

/// The answers among the appends, in order.
pub open spec fn appended_answers(ops: Seq<Append>) -> Seq<AnswerView>
    decreases ops.len(),
{
    if ops.len() == 0 {
        Seq::empty()
    } else {
        match ops.last() {
            Append::Question(_) => appended_answers(ops.drop_last()),
            Append::Answer(a) => appended_answers(ops.drop_last()).push(a),
        }
    }
}

/// Appends to a well-formed message keep it well formed, and each section
/// grows by what was appended to it, in order.
pub proof fn lemma_appends_keep_counts(m: MessageView, ops: Seq<Append>)
    requires
        m.wf(),
    ensures
        apply_appends(m, ops).wf(),
        apply_appends(m, ops).questions == m.questions + appended_questions(ops),
        apply_appends(m, ops).answers == m.answers + appended_answers(ops),
        apply_appends(m, ops).header.id == m.header.id,
    decreases ops.len(),
{
    if ops.len() == 0 {
        assert(m.questions + Seq::empty() =~= m.questions);
        assert(m.answers + Seq::empty() =~= m.answers);
    } else {
        lemma_appends_keep_counts(m, ops.drop_last());
        let prev = apply_appends(m, ops.drop_last());
        match ops.last() {
            Append::Question(q) => {
                assert(prev.questions.push(q) =~= m.questions + appended_questions(
                    ops.drop_last(),
                ).push(q));
            },
            Append::Answer(a) => {
                assert(prev.answers.push(a) =~= m.answers + appended_answers(ops.drop_last()).push(
                    a,
                ));
            },
        }
    }
}

/// Whatever the order in which N questions and M answers are appended to a
/// message with empty sections and zero counts, its encoded header carries a
/// question count of N and an answer count of M.
pub proof fn lemma_counts_follow_appends(m: MessageView, ops: Seq<Append>)
    requires
        m.questions.len() == 0,
        m.answers.len() == 0,
        m.header.num_of_qs == 0,
        m.header.num_of_an == 0,
        appended_questions(ops).len() < 65536,
        appended_answers(ops).len() < 65536,
    ensures
        message_wire(apply_appends(m, ops)).subrange(4, 6) == be16_bytes(
            appended_questions(ops).len() as u16,
        ),
        message_wire(apply_appends(m, ops)).subrange(6, 8) == be16_bytes(
            appended_answers(ops).len() as u16,
        ),
{
    lemma_appends_keep_counts(m, ops);
    let r = apply_appends(m, ops);
    assert(r.questions =~= appended_questions(ops));
    assert(r.answers =~= appended_answers(ops));
    let w = message_wire(r);
    let h = header_wire(r.header);
    assert(w.subrange(4, 6) =~= h.subrange(4, 6));
    assert(w.subrange(6, 8) =~= h.subrange(6, 8));
    assert(h.subrange(4, 6) =~= be16_bytes(r.header.num_of_qs));
    assert(h.subrange(6, 8) =~= be16_bytes(r.header.num_of_an));
}

impl Message {
    fn new(header: Header) -> (r: Self)
        ensures
            r@ == (MessageView { header, questions: Seq::empty(), answers: Seq::empty() }),
    {
        let r = Message { header, questions: Vec::new(), answers: Vec::new() };
        assert(r@.questions =~= Seq::empty());
        assert(r@.answers =~= Seq::empty());
        r
    }

    /// The reply shell for a decoded message.
    pub fn reply(msg: Self) -> (r: Self)
        ensures
            r@ == reply_view(msg@),
            r@.wf(),
    {
        let Message { header, questions, .. } = msg;
        let n = questions.len();
        let r = Message {
            header: Header::copy_from(header).set_qs((n % 65536) as u16),
            questions,
            answers: Vec::new(),
        };
        assert(r@.answers =~= Seq::empty());
        r
    }

    /// The query that forwards `q` upstream under id `id`.
    pub fn query(id: u16, q: &Question) -> (r: Self)
        ensures
            r@ == query_view(id, q@),
            r@.wf(),
    {
        let msg = Self::new(Header::new_query(id));
        let r = msg.set_question(q.clone());
        assert(r@.questions =~= seq![q@]);
        r
    }

    pub fn error() -> (r: Self)
        ensures
            r@ == error_view(),
            r@.wf(),
    {
        Self::new(Header::error())
    }

    /// Appends a question and recomputes the question count.
    pub fn set_question(self, q: Question) -> (r: Self)
        ensures
            r@ == self@.with_question(q@),
            self@.wf() ==> r@.wf(),
    {
        let Message { header, mut questions, answers } = self;
        questions.push(q);
        let n = questions.len();
        let r = Message { header: header.set_qs((n % 65536) as u16), questions, answers };
        assert(r@.questions =~= self@.questions.push(q@));
        r
    }

    /// Appends an answer and recomputes the answer count.
    pub fn set_answer(self, a: Answer) -> (r: Self)
        ensures
            r@ == self@.with_answer(a@),
            self@.wf() ==> r@.wf(),
    {
        let Message { header, questions, mut answers } = self;
        answers.push(a);
        let n = answers.len();
        let r = Message { header: header.set_an((n % 65536) as u16), questions, answers };
        assert(r@.answers =~= self@.answers.push(a@));
        r
    }

    /// The wire bytes of this message.
    pub fn as_bytes(&self) -> (r: Vec<u8>)
        ensures
            r@ == message_wire(self@),
    {
        let h = self.header.as_bytes();
        let mut out: Vec<u8> = Vec::new();
        let mut k: usize = 0;
        while k < 12
            invariant
                k <= 12,
                out@ == h@.subrange(0, k as int),
            decreases 12 - k,
        {
            out.push(h[k]);
            k = k + 1;
            proof {
                assert(out@ =~= h@.subrange(0, k as int));
            }
        }
        proof {
            assert(h@.subrange(0, 12) =~= h@);
        }
        let ghost qs = self@.questions;
        let mut i: usize = 0;
        while i < self.questions.len()
            invariant
                i <= qs.len(),
                qs == self@.questions,
                out@ == header_wire(self.header) + questions_wire(qs.subrange(0, i as int)),
            decreases qs.len() - i,
        {
            let mut q = self.questions[i].as_bytes();
            out.append(&mut q);
            proof {
                assert(qs.subrange(0, i + 1).drop_last() =~= qs.subrange(0, i as int));
                assert(out@ =~= header_wire(self.header) + questions_wire(
                    qs.subrange(0, i + 1),
                ));
            }
            i = i + 1;
        }
        proof {
            assert(qs.subrange(0, qs.len() as int) =~= qs);
        }
        let ghost xs = self@.answers;
        let mut j: usize = 0;
        while j < self.answers.len()
            invariant
                j <= xs.len(),
                xs == self@.answers,
                out@ == header_wire(self.header) + questions_wire(qs) + answers_wire(
                    xs.subrange(0, j as int),
                ),
            decreases xs.len() - j,
        {
            let mut a = self.answers[j].as_bytes();
            out.append(&mut a);
            proof {
                assert(xs.subrange(0, j + 1).drop_last() =~= xs.subrange(0, j as int));
                assert(out@ =~= header_wire(self.header) + questions_wire(qs) + answers_wire(
                    xs.subrange(0, j + 1),
                ));
            }
            j = j + 1;
        }
        proof {
            assert(xs.subrange(0, xs.len() as int) =~= xs);
        }
        out
    }

    pub fn id(&self) -> (r: u16)
        ensures
            r == self.header.id.0,
    {
        self.header.id().as_u16()
    }

    /// Decodes a whole message from a buffer.
    pub fn decode(bytes: &[u8]) -> (r: Result<Self, Error>)
        ensures
            match parse_message(bytes@) {
                Ok(m) => r is Ok && r->Ok_0@ == m && m.wf(),
                Err(e) => r == Err::<Message, Error>(e),
            },
    {
        proof {
            lemma_decoded_wf(bytes@);
        }
        let ghost b = bytes@;
        let mut cursor = Cursor::new(bytes);
        let header = match Header::new(&mut cursor) {
            Ok(h) => h,
            Err(e) => return Err(e),
        };
        let ghost end_header = cursor.pos as int;
        let mut questions: Vec<Question> = Vec::new();
        let mut i: u16 = 0;
        while i < header.num_of_qs
            invariant
                b == bytes@,
                cursor.buf@ == b,
                parse_header(b, 0) == Ok::<(Header, int), Error>((header, end_header)),
                i <= header.num_of_qs,
                parse_questions(b, end_header, header.num_of_qs as nat) == after(
                    questions@.map_values(|q: Question| q@),
                    parse_questions(b, cursor.pos as int, (header.num_of_qs - i) as nat),
                ),
            decreases header.num_of_qs - i,
        {
            let ghost before = questions@.map_values(|q: Question| q@);
            let ghost pos = cursor.pos as int;
            let q = match Question::new(&mut cursor) {
                Ok(q) => q,
                Err(e) => {
                    proof {
                        assert(parse_questions(b, pos, (header.num_of_qs - i) as nat) == Err::<
                            (Seq<QuestionView>, int),
                            Error,
                        >(e));
                    }
                    return Err(e);
                },
            };
            questions.push(q);
            i = i + 1;
            proof {
                let rest = parse_questions(b, cursor.pos as int, (header.num_of_qs - i) as nat);
                assert(questions@.map_values(|q: Question| q@) =~= before + seq![q@]);
                if rest is Ok {
                    assert(before + (seq![q@] + rest->Ok_0.0) =~= (before + seq![q@])
                        + rest->Ok_0.0);
                }
            }
        }
        let ghost end_questions = cursor.pos as int;
        let ghost qviews = questions@.map_values(|q: Question| q@);
        proof {
            assert(qviews + Seq::empty() =~= qviews);
        }
        let mut answers: Vec<Answer> = Vec::new();
        let mut j: u16 = 0;
        while j < header.num_of_an
            invariant
                b == bytes@,
                cursor.buf@ == b,
                parse_header(b, 0) == Ok::<(Header, int), Error>((header, end_header)),
                parse_questions(b, end_header, header.num_of_qs as nat) == Ok::<
                    (Seq<QuestionView>, int),
                    Error,
                >((qviews, end_questions)),
                j <= header.num_of_an,
                parse_answers(b, end_questions, header.num_of_an as nat) == after(
                    answers@.map_values(|a: Answer| a@),
                    parse_answers(b, cursor.pos as int, (header.num_of_an - j) as nat),
                ),
            decreases header.num_of_an - j,
        {
            let ghost before = answers@.map_values(|a: Answer| a@);
            let ghost pos = cursor.pos as int;
            let a = match Answer::new(&mut cursor) {
                Ok(a) => a,
                Err(e) => {
                    proof {
                        assert(parse_answers(b, pos, (header.num_of_an - j) as nat) == Err::<
                            (Seq<AnswerView>, int),
                            Error,
                        >(e));
                    }
                    return Err(e);
                },
            };
            answers.push(a);
            j = j + 1;
            proof {
                let rest = parse_answers(b, cursor.pos as int, (header.num_of_an - j) as nat);
                assert(answers@.map_values(|a: Answer| a@) =~= before + seq![a@]);
                if rest is Ok {
                    assert(before + (seq![a@] + rest->Ok_0.0) =~= (before + seq![a@])
                        + rest->Ok_0.0);
                }
            }
        }
        let r = Message { header, questions, answers };
        proof {
            let xs = answers@.map_values(|a: Answer| a@);
            assert(xs + Seq::empty() =~= xs);
        }
        Ok(r)
    }
}

} // verus!

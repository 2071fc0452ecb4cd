use crate::error::Error;
use crate::message::{
    error_view, local_answer, parse_message, query_view, reply_view, Answer, AnswerView, Message,
    MessageView, QuestionView,
};
use vstd::arithmetic::div_mod::{lemma_add_mod_noop, lemma_small_mod};
use vstd::prelude::*;

verus! {

/// `m` with the answers appended one by one.
pub open spec fn with_answers(m: MessageView, xs: Seq<AnswerView>) -> MessageView
    decreases xs.len(),
{
    if xs.len() == 0 {
        m
    } else {
        with_answers(m, xs.drop_last()).with_answer(xs.last())
    }
}

/// The answers made up locally for the questions, in order.
pub open spec fn local_answers(qs: Seq<QuestionView>) -> Seq<AnswerView> {
    qs.map_values(|q: QuestionView| local_answer(q))
}

/// The reply to a datagram when no upstream resolver is configured: the error
/// message when it does not decode, else its reply shell with one locally made
/// answer per question.
pub open spec fn local_reply(b: Seq<u8>) -> MessageView {
    match parse_message(b) {
        Err(_) => error_view(),
        Ok(m) => with_answers(reply_view(m), local_answers(m.questions)),
    }
}

/// The transaction id of the query that forwards question `i` of a message
/// with id `id` (sixteen-bit arithmetic, wrapping).
pub open spec fn forward_id(id: u16, i: int) -> u16 {
    ((id + i) % 65536) as u16
}

/// Every answer of the upstream replies, in order.
pub open spec fn all_answers(rs: Seq<MessageView>) -> Seq<AnswerView>
    decreases rs.len(),
{
    if rs.len() == 0 {
        Seq::empty()
    } else {
        all_answers(rs.drop_last()) + rs.last().answers
    }
}

/// Appending answers leaves the questions and everything but the answer
/// count of the header as they were.
pub proof fn lemma_with_answers_questions(m: MessageView, xs: Seq<AnswerView>)
    ensures
        with_answers(m, xs).questions == m.questions,
        with_answers(m, xs).header.id == m.header.id,
        with_answers(m, xs).header.num_of_qs == m.header.num_of_qs,
    decreases xs.len(),
{
    if xs.len() > 0 {
        lemma_with_answers_questions(m, xs.drop_last());
    }
}

/// A datagram shorter than a header gets the error message, with or without
/// an upstream resolver, and nothing is forwarded for it.
pub proof fn lemma_short_datagram_gets_error(b: Seq<u8>)
    requires
        b.len() < 12,
    ensures
        local_reply(b) == error_view(),
        start_view(b).reply == error_view(),
        start_view(b).done(),
{
}

/// Answers a datagram without an upstream resolver.
pub fn reply_locally(buf: &[u8]) -> (r: Message)
    ensures
        r@ == local_reply(buf@),
{
    match Message::decode(buf) {
        Err(_) => Message::error(),
        Ok(msg) => {
            let ghost m = msg@;
            let mut reply = Message::reply(msg);
            let ghost qs = reply@.questions;
            let mut i: usize = 0;
            while i < reply.questions.len()
                invariant
                    qs == m.questions,
                    reply@.questions == qs,
                    i <= qs.len(),
                    reply@ == with_answers(
                        reply_view(m),
                        local_answers(qs.subrange(0, i as int)),
                    ),
                decreases qs.len() - i,
            {
                let a = Answer::from_question(&reply.questions[i]);
                proof {
                    assert(local_answers(qs.subrange(0, i + 1)).drop_last() =~= local_answers(
                        qs.subrange(0, i as int),
                    ));
                }
                reply = reply.set_answer(a);
                i = i + 1;
            }
            proof {
                assert(qs.subrange(0, qs.len() as int) =~= qs);
            }
            reply
        },
    }
}

/// The state of forwarding the questions of one datagram upstream, one at a
/// time: the reply being assembled, the original id and the index of the
/// next question to forward.
pub struct Forwarding {
    pub reply: Message,
    pub id: u16,
    pub next: usize,
}

/// What a forwarding session holds.
pub ghost struct ForwardingView {
    pub reply: MessageView,
    pub id: u16,
    pub next: nat,
}

impl View for Forwarding {
    type V = ForwardingView;

    open spec fn view(&self) -> ForwardingView {
        ForwardingView { reply: self.reply@, id: self.id, next: self.next as nat }
    }
}

impl ForwardingView {
    /// The next question index never passes the number of questions.
    pub open spec fn wf(self) -> bool {
        self.next <= self.reply.questions.len()
    }

    /// Whether every question has been forwarded.
    pub open spec fn done(self) -> bool {
        self.next >= self.reply.questions.len()
    }

    /// The query for the next question.
    pub open spec fn query(self) -> MessageView {
        query_view(forward_id(self.id, self.next as int), self.reply.questions[self.next as int])
    }

    /// The session after the upstream replied `r` to the last query.
    pub open spec fn step(self, r: MessageView) -> ForwardingView {
        ForwardingView {
            reply: with_answers(self.reply, r.answers),
            id: self.id,
            next: self.next + 1,
        }
    }
}

/// The session that starts from datagram `b`: nothing to forward when it does
/// not decode (the reply is then the error message), else its reply shell.
pub open spec fn start_view(b: Seq<u8>) -> ForwardingView {
    match parse_message(b) {
        Err(_) => ForwardingView { reply: error_view(), id: 0, next: 0 },
        Ok(m) => ForwardingView { reply: reply_view(m), id: m.header.id.0, next: 0 },
    }
}

/// The session after the upstream replies `rs`, one per forwarded question.
pub open spec fn run(s: ForwardingView, rs: Seq<MessageView>) -> ForwardingView
    decreases rs.len(),
{
    if rs.len() == 0 {
        s
    } else {
        run(s, rs.drop_last()).step(rs.last())
    }
}

proof fn lemma_with_answers_concat(m: MessageView, xs: Seq<AnswerView>, ys: Seq<AnswerView>)
    ensures
        with_answers(with_answers(m, xs), ys) == with_answers(m, xs + ys),
    decreases ys.len(),
{
    if ys.len() == 0 {
        assert(xs + ys =~= xs);
    } else {
        lemma_with_answers_concat(m, xs, ys.drop_last());
        assert((xs + ys).drop_last() =~= xs + ys.drop_last());
        assert((xs + ys).last() == ys.last());
    }
}

proof fn lemma_with_answers_appends(m: MessageView, xs: Seq<AnswerView>)
    ensures
        with_answers(m, xs).answers == m.answers + xs,
    decreases xs.len(),
{
    if xs.len() == 0 {
        assert(m.answers + xs =~= m.answers);
    } else {
        lemma_with_answers_appends(m, xs.drop_last());
        assert(m.answers + xs =~= (m.answers + xs.drop_last()).push(xs.last()));
    }
}

/// A run of `rs.len()` steps moves the session that many questions on and
/// appends every answer of the replies.
proof fn lemma_run_shape(s: ForwardingView, rs: Seq<MessageView>)
    ensures
        run(s, rs).id == s.id,
        run(s, rs).next == s.next + rs.len(),
        run(s, rs).reply == with_answers(s.reply, all_answers(rs)),
    decreases rs.len(),
{
    if rs.len() > 0 {
        lemma_run_shape(s, rs.drop_last());
        lemma_with_answers_concat(s.reply, all_answers(rs.drop_last()), rs.last().answers);
    }
}

/// Forwarding the questions of a datagram that decodes, the upstream giving
/// reply `rs[i]` to the `i`-th query: exactly one query goes out per question,
/// the `i`-th asking question `i` alone under the original id plus `i`; after
/// the last reply nothing more is forwarded, and the assembled reply holds the
/// original questions and every upstream answer, in order and untouched.
pub proof fn lemma_forwarding_run(b: Seq<u8>, rs: Seq<MessageView>)
    requires
        parse_message(b) is Ok,
        rs.len() == parse_message(b)->Ok_0.questions.len(),
    ensures
        forall|i: int|
            0 <= i < rs.len() ==> {
                let s = #[trigger] run(start_view(b), rs.subrange(0, i));
                &&& !s.done()
                &&& s.query() == query_view(
                    forward_id(parse_message(b)->Ok_0.header.id.0, i),
                    parse_message(b)->Ok_0.questions[i],
                )
            },
        run(start_view(b), rs).done(),
        run(start_view(b), rs).reply.questions == parse_message(b)->Ok_0.questions,
        run(start_view(b), rs).reply.answers == all_answers(rs),
{
    let m = parse_message(b)->Ok_0;
    let s0 = start_view(b);
    assert forall|i: int| 0 <= i < rs.len() implies {
        let s = #[trigger] run(s0, rs.subrange(0, i));
        &&& !s.done()
        &&& s.query() == query_view(forward_id(m.header.id.0, i), m.questions[i])
    } by {
        lemma_run_shape(s0, rs.subrange(0, i));
        lemma_with_answers_questions(s0.reply, all_answers(rs.subrange(0, i)));
    }
    lemma_run_shape(s0, rs);
    lemma_with_answers_questions(s0.reply, all_answers(rs));
    lemma_with_answers_appends(s0.reply, all_answers(rs));
    assert(s0.reply.answers + all_answers(rs) =~= all_answers(rs));
}

impl Forwarding {
    /// Starts forwarding the questions of a datagram.
    pub fn start(buf: &[u8]) -> (r: Self)
        ensures
            r@ == start_view(buf@),
            r@.wf(),
    {
        match Message::decode(buf) {
            Err(_) => Forwarding { reply: Message::error(), id: 0, next: 0 },
            Ok(msg) => {
                let id = msg.id();
                Forwarding { reply: Message::reply(msg), id, next: 0 }
            },
        }
    }

    /// The query that forwards the next question, or `None` once every
    /// question has been forwarded.
    pub fn next_query(&self) -> (r: Option<Message>)
        requires
            self@.wf(),
        ensures
            self@.done() ==> r is None,
            !self@.done() ==> r is Some && r->0@ == self@.query(),
    {
        if self.next < self.reply.questions.len() {
            let offset = (self.next % 65536) as u32;
            let id = ((self.id as u32 + offset) % 65536) as u16;
            proof {
                lemma_add_mod_noop(self.id as int, self.next as int, 65536);
                lemma_small_mod(self.id as nat, 65536);
            }
            Some(Message::query(id, &self.reply.questions[self.next]))
        } else {
            None
        }
    }

    /// Takes the upstream's reply to the last query: its answers are appended
    /// to the reply in order. A reply that does not decode ends the session
    /// with its error.
    pub fn accept(self, response: &[u8]) -> (r: Result<Self, Error>)
        requires
            self@.wf(),
            !self@.done(),
        ensures
            match parse_message(response@) {
                Ok(m) => r is Ok && r->Ok_0@ == self@.step(m) && r->Ok_0@.wf(),
                Err(e) => r == Err::<Forwarding, Error>(e),
            },
    {
        let upstream = match Message::decode(response) {
            Ok(m) => m,
            Err(e) => return Err(e),
        };
        let ghost xs = upstream@.answers;
        let nq = self.reply.questions.len();
        proof {
            lemma_with_answers_questions(self@.reply, xs);
            assert(self.next < nq);
        }
        let Forwarding { mut reply, id, next } = self;
        let ghost reply0 = reply@;
        let Message { answers: mut rest, .. } = upstream;
        let n = rest.len();
        let mut k: usize = 0;
        while k < n
            invariant
                n == xs.len(),
                k <= n,
                rest@.len() == n - k,
                rest@.map_values(|a: Answer| a@) == xs.subrange(k as int, n as int),
                reply@ == with_answers(reply0, xs.subrange(0, k as int)),
            decreases n - k,
        {
            let ghost before = rest@;
            let a = rest.remove(0);
            proof {
                assert(before.map_values(|a: Answer| a@)[0] == xs.subrange(k as int, n as int)[0]);
                assert(rest@ =~= before.subrange(1, before.len() as int));
                assert forall|j: int| 0 <= j < rest@.len() implies #[trigger] rest@[j]@ == xs[k
                    + 1 + j] by {
                    assert(before.map_values(|a: Answer| a@)[j + 1] == xs.subrange(
                        k as int,
                        n as int,
                    )[j + 1]);
                }
                assert(rest@.map_values(|a: Answer| a@) =~= xs.subrange(k + 1, n as int));
                assert(a@ == xs[k as int]);
                assert(xs.subrange(0, k + 1).drop_last() =~= xs.subrange(0, k as int));
            }
            reply = reply.set_answer(a);
            k = k + 1;
        }
        proof {
            assert(xs.subrange(0, n as int) =~= xs);
        }
        Ok(Forwarding { reply, id, next: next + 1 })
    }

    /// The assembled reply.
    pub fn finish(self) -> (r: Message)
        ensures
            r@ == self@.reply,
    {
        self.reply
    }
}

} // verus!

//! Resolution strategies: from a request's header and questions to answer
//! records.
use std::rc::Rc;
use vstd::prelude::*;

use crate::header::{Header, HeaderView, RCode};
use crate::message::{
    answer_views, message_wire, parse_message, question_views, Message, MessageView, ParseError,
};
use crate::record::{Answer, AnswerView, Question, QuestionView};

verus! {

/// Record type `A` (a host address).
pub const TYPE_A: u16 = 1;

/// Record class `IN` (the Internet).
pub const CLASS_IN: u16 = 1;

/// Time to live of a synthetic answer, in seconds.
pub const SYNTHETIC_TTL: u32 = 60;

/// The address that every synthetic answer gives.
pub open spec fn synthetic_address() -> Seq<u8> {
    seq![8u8, 8u8, 8u8, 8u8]
}

/// The synthetic answer to a question: an `A` record in class `IN` for the
/// question's name.
pub open spec fn synthetic_answer(q: QuestionView) -> AnswerView {
    AnswerView {
        name: q.name,
        atype: TYPE_A,
        class: CLASS_IN,
        ttl: SYNTHETIC_TTL,
        data: synthetic_address(),
    }
}

/// Turns a request into answer records.
pub trait Resolve {
    fn resolve(&self, header: &Header, questions: &[Question]) -> Vec<Answer>;
}

/// Answers every question with the same made-up address.
pub struct DummyDnsResolver {}

impl Resolve for DummyDnsResolver {
    /// One answer per question, in order; each shares its question's name.
    fn resolve(&self, header: &Header, questions: &[Question]) -> (r: Vec<Answer>)
        ensures
            answer_views(r@) == question_views(questions@).map_values(
                |q: QuestionView| synthetic_answer(q),
            ),
    {
        let mut answers: Vec<Answer> = Vec::new();
        let mut i: usize = 0;
        while i < questions.len()
            invariant
                i <= questions@.len(),
                answer_views(answers@) == question_views(questions@.take(i as int)).map_values(
                    |q: QuestionView| synthetic_answer(q),
                ),
            decreases questions@.len() - i,
        {
            let question = &questions[i];
            let answer = Answer::new(
                question.get_name(),
                TYPE_A,
                CLASS_IN,
                SYNTHETIC_TTL,
                vec![8u8, 8u8, 8u8, 8u8],
            );
            let ghost before = answer_views(answers@);
            proof {
                assert(answer@.data =~= synthetic_address());
                assert(answer@ == synthetic_answer(questions@[i as int]@));
                assert(question_views(questions@.take(i + 1)).map_values(
                    |q: QuestionView| synthetic_answer(q),
                ) =~= before.push(synthetic_answer(questions@[i as int]@)));
            }
            answers.push(answer);
            assert(answer_views(answers@) =~= before.push(answer@));
            i = i + 1;
        }
        assert(questions@.take(i as int) =~= questions@);
        answers
    }
}

/// The header of the request forwarded upstream for one question: the
/// request's identifier and operation code, a query with recursion not
/// desired, and a single question.
pub open spec fn forward_header_view(h: HeaderView) -> HeaderView {
    HeaderView {
        id: h.id,
        qr: false,
        opcode: h.opcode,
        aa: false,
        tc: false,
        rd: false,
        ra: false,
        z: 0,
        rcode: RCode::NoError,
        qd_count: 1,
        an_count: 0,
        ns_count: 0,
        ar_count: 0,
    }
}

/// Builds the header of a forwarded request from the incoming request's.
pub fn forward_header(header: &Header) -> (r: Header)
    ensures
        r@ == forward_header_view(header@),
{
    let mut fwd = Header::default();
    fwd.set_id(header.get_id());
    fwd.set_qr(false);
    fwd.set_opcode(header.get_opcode());
    fwd.set_rd(false);
    fwd.set_qd_count(1);
    fwd
}

/// What the upstream round trip for one question gave.
pub enum ForwardReply {
    /// The bytes of the upstream's reply.
    Received(Vec<u8>),
    /// Sending or receiving failed.
    Failed,
}

/// What the driver of a forwarding session does next.
pub enum ForwardAction {
    /// Send these bytes upstream and report the reply.
    Send(Vec<u8>),
    /// Every question has had its round trip.
    Done,
}

/// The answers that a reply contributes: all the answer records of a reply
/// that parses, none for a failed round trip.
pub open spec fn reply_answers(reply: ForwardReply) -> Result<Seq<AnswerView>, ParseError> {
    match reply {
        ForwardReply::Received(bytes) => match parse_message(bytes@) {
            Ok(m) => Ok(m.answers),
            Err(e) => Err(e),
        },
        ForwardReply::Failed => Ok(Seq::empty()),
    }
}

/// A forwarding session as plain values.
pub struct ForwardingSessionView {
    pub header: HeaderView,
    pub questions: Seq<QuestionView>,
    pub next: nat,
    pub answers: Seq<AnswerView>,
}

/// The state after the round trip for the next question gave `reply`. A
/// failed round trip adds no answer and does not stop the session; a reply
/// that cannot be parsed is an error.
pub open spec fn forward_step(s: ForwardingSessionView, reply: ForwardReply) -> Result<
    ForwardingSessionView,
    ParseError,
> {
    match reply_answers(reply) {
        Ok(got) => Ok(ForwardingSessionView { next: s.next + 1, answers: s.answers + got, ..s }),
        Err(e) => Err(e),
    }
}

/// The request forwarded for question `i`: the forwarded header and that one
/// question.
pub open spec fn forward_request(s: ForwardingSessionView, i: int) -> Seq<u8> {
    message_wire(
        MessageView { header: s.header, questions: seq![s.questions[i]], answers: Seq::empty() },
    )
}

/// The decisions of the forwarding resolver: one upstream round trip per
/// question, in order, each for a request holding that question alone; the
/// answers of every reply are collected, and a failed round trip adds none.
/// The driver performs the round trips.
pub struct ForwardingSession {
    header: Rc<Header>,
    questions: Vec<Question>,
    next: usize,
    answers: Vec<Answer>,
}

impl View for ForwardingSession {
    type V = ForwardingSessionView;

    closed spec fn view(&self) -> ForwardingSessionView {
        ForwardingSessionView {
            header: self.header@,
            questions: question_views(self.questions@),
            next: self.next as nat,
            answers: answer_views(self.answers@),
        }
    }
}

impl ForwardingSession {
    /// A session for a request, before any round trip.
    pub fn new(header: &Header, questions: &[Question]) -> (r: ForwardingSession)
        ensures
            r@ == (ForwardingSessionView {
                header: forward_header_view(header@),
                questions: question_views(questions@),
                next: 0,
                answers: Seq::empty(),
            }),
    {
        let mut shared: Vec<Question> = Vec::new();
        let mut i: usize = 0;
        while i < questions.len()
            invariant
                i <= questions@.len(),
                question_views(shared@) == question_views(questions@.take(i as int)),
            decreases questions@.len() - i,
        {
            let q = &questions[i];
            let copy = Question::new(q.get_name(), q.get_type(), q.get_class());
            let ghost before = question_views(shared@);
            shared.push(copy);
            proof {
                assert(question_views(shared@) =~= before.push(copy@));
                assert(question_views(questions@.take(i + 1)) =~= question_views(
                    questions@.take(i as int),
                ).push(questions@[i as int]@));
            }
            i = i + 1;
        }
        assert(questions@.take(i as int) =~= questions@);
        let answers: Vec<Answer> = Vec::new();
        assert(answer_views(answers@) =~= Seq::<AnswerView>::empty());
        ForwardingSession { header: Rc::new(forward_header(header)), questions: shared, next: 0, answers }
    }

    /// Whether every question has had its round trip.
    pub fn is_done(&self) -> (r: bool)
        ensures
            r == (self@.next >= self@.questions.len()),
    {
        self.next >= self.questions.len()
    }

    /// The request to send for the next question, or `Done`.
    pub fn next_action(&self) -> (r: ForwardAction)
        ensures
            self@.next < self@.questions.len() ==> (r matches ForwardAction::Send(bytes) && bytes@
                == forward_request(self@, self@.next as int)),
            self@.next >= self@.questions.len() ==> r is Done,
    {
        if self.next >= self.questions.len() {
            return ForwardAction::Done;
        }
        let q = &self.questions[self.next];
        let single: Vec<Question> = vec![Question::new(q.get_name(), q.get_type(), q.get_class())];
        assert(question_views(single@) =~= seq![self@.questions[self@.next as int]]);
        let request = Message::new(&self.header, &Rc::new(single), Vec::new());
        assert(answer_views(Seq::<Answer>::empty()) =~= Seq::<AnswerView>::empty());
        ForwardAction::Send(request.encode())
    }

    /// Takes in the outcome of the round trip for the next question.
    pub fn on_reply(&mut self, reply: ForwardReply) -> (r: Result<(), ParseError>)
        requires
            old(self)@.next < old(self)@.questions.len(),
        ensures
            match forward_step(old(self)@, reply) {
                Ok(s) => r is Ok && final(self)@ == s,
                Err(e) => r == Err::<(), _>(e) && final(self)@ == old(self)@,
            },
    {
        let count: usize = self.questions.len();
        assert(question_views(self.questions@).len() == count);
        match reply {
            ForwardReply::Failed => {
                self.next = self.next + 1;
                assert(old(self)@.answers + Seq::<AnswerView>::empty() =~= old(self)@.answers);
                Ok(())
            },
            ForwardReply::Received(bytes) => {
                let message = match Message::parse_from(bytes.as_slice()) {
                    Ok(m) => m,
                    Err(e) => {
                        return Err(e);
                    },
                };
                let got: &Vec<Answer> = message.get_answers();
                let mut i: usize = 0;
                while i < got.len()
                    invariant
                        i <= got@.len(),
                        self.next == old(self).next,
                        self.questions@ == old(self).questions@,
                        self.header == old(self).header,
                        self.next < self.questions@.len(),
                        answer_views(self.answers@) == old(self)@.answers + answer_views(
                            got@.take(i as int),
                        ),
                    decreases got@.len() - i,
                {
                    let copy = got[i].clone();
                    let ghost before = answer_views(self.answers@);
                    self.answers.push(copy);
                    proof {
                        assert(answer_views(self.answers@) =~= before.push(copy@));
                        assert(answer_views(got@.take(i + 1)) =~= answer_views(
                            got@.take(i as int),
                        ).push(got@[i as int]@));
                    }
                    i = i + 1;
                }
                assert(got@.take(i as int) =~= got@);
                self.next = self.next + 1;
                Ok(())
            },
        }
    }

    /// The answers collected so far.
    pub fn into_answers(self) -> (r: Vec<Answer>)
        ensures
            answer_views(r@) == self@.answers,
    {
        self.answers
    }
}

/// A failed round trip does not abort the session: after a reply that parses
/// to `m` and then a failed round trip, the session holds the answers it had
/// plus exactly those of `m`, and has moved past both questions.
pub proof fn lemma_partial_failure(s: ForwardingSessionView, bytes: Vec<u8>, m: MessageView)
    requires
        parse_message(bytes@) == Ok::<_, ParseError>(m),
    ensures
        forward_step(s, ForwardReply::Received(bytes)) matches Ok(s1) && forward_step(
            s1,
            ForwardReply::Failed,
        ) == Ok::<_, ParseError>(
            ForwardingSessionView { next: s.next + 2, answers: s.answers + m.answers, ..s },
        ),
{
    let s1 = ForwardingSessionView { next: s.next + 1, answers: s.answers + m.answers, ..s };
    assert(s1.answers + Seq::<AnswerView>::empty() =~= s.answers + m.answers);
}

} // verus!

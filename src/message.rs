//! Whole messages: a header, a question section and an answer section, read
//! from and written to one byte buffer.
use std::rc::Rc;
use vstd::prelude::*;
use vstd::utf8::{decode_utf8, encode_utf8, encode_utf8_decode_utf8, valid_utf8};

use crate::header::{header_from_wire, header_wire, Header, HeaderView, HEADER_LEN};
use crate::name::{Label, LabelSequence};
use crate::record::{
    answer_wire, copy_bytes, question_wire, Answer, AnswerView, Question, QuestionView,
};
use crate::wire::{append_bytes, read_u16, read_u32, u16_at, u32_at};

verus! {

/// Why a buffer could not be read as a message.
#[derive(Clone, Copy, Debug, PartialEq, Eq, Structural)]
pub enum ParseError {
    /// The buffer is shorter than the twelve-byte header.
    HeaderTooShort,
    /// A name, field or record data runs past the end of the buffer.
    UnexpectedEnd,
    /// The bytes of a label are not UTF-8.
    InvalidLabel,
    /// A compression pointer points into the header.
    PointerIntoHeader,
    /// A name follows more compression pointers than the section has bytes,
    /// so its pointers form a cycle.
    PointerLoop,
    /// The buffer ends before the number of records that the header declares.
    MissingRecords,
}

/// Reads the name at `pos` of a section, following at most `jumps` more
/// compression pointers. On success, gives the labels and the number of bytes
/// by which the reader of the enclosing record advances: up to and including
/// the terminator, or up to and including the first pointer's two bytes.
pub open spec fn walk_name(data: Seq<u8>, pos: int, jumps: nat) -> Result<
    (Seq<Seq<char>>, int),
    ParseError,
>
    decreases jumps, data.len() - pos,
{
    if pos < 0 || pos >= data.len() {
        Err(ParseError::UnexpectedEnd)
    } else {
        let b = data[pos];
        if b == 0 {
            Ok((Seq::empty(), 1))
        } else if b < 0xC0 {
            let end = pos + 1 + b;
            if end > data.len() {
                Err(ParseError::UnexpectedEnd)
            } else if !valid_utf8(data.subrange(pos + 1, end)) {
                Err(ParseError::InvalidLabel)
            } else {
                match walk_name(data, end, jumps) {
                    Ok((ls, n)) => Ok((seq![decode_utf8(data.subrange(pos + 1, end))] + ls, b + 1 + n)),
                    Err(e) => Err(e),
                }
            }
        } else if pos + 1 >= data.len() {
            Err(ParseError::UnexpectedEnd)
        } else {
            let offset = (b & 0x3F) * 0x100 + data[pos + 1];
            if offset < HEADER_LEN {
                Err(ParseError::PointerIntoHeader)
            } else if jumps == 0 {
                Err(ParseError::PointerLoop)
            } else {
                match walk_name(data, offset - HEADER_LEN, (jumps - 1) as nat) {
                    Ok((ls, _)) => Ok((ls, 2)),
                    Err(e) => Err(e),
                }
            }
        }
    }
}

/// Reads the name at `start` of a section. A walk that follows more pointers
/// than the section has bytes must visit some position twice, and would never
/// end; it is refused.
pub open spec fn parse_name(data: Seq<u8>, start: int) -> Result<(Seq<Seq<char>>, int), ParseError> {
    walk_name(data, start, data.len())
}

/// What a name read so far becomes once the rest of it is read.
pub open spec fn continue_name(
    acc: Seq<Seq<char>>,
    first_pointer: Option<int>,
    consumed: int,
    rest: Result<(Seq<Seq<char>>, int), ParseError>,
) -> Result<(Seq<Seq<char>>, int), ParseError> {
    match rest {
        Err(e) => Err(e),
        Ok((ls, n)) => Ok(
            (
                acc + ls,
                match first_pointer {
                    None => consumed + n,
                    Some(_) => consumed,
                },
            ),
        ),
    }
}

/// A name that reads successfully takes at least one byte, and no more than
/// the section has from its start.
pub proof fn lemma_walk_name_bounds(data: Seq<u8>, pos: int, jumps: nat)
    ensures
        walk_name(data, pos, jumps) matches Ok((_, n)) ==> 1 <= n <= data.len() - pos,
    decreases jumps, data.len() - pos,
{
    if 0 <= pos < data.len() {
        let b = data[pos];
        if b != 0 && b < 0xC0 && pos + 1 + b <= data.len() {
            lemma_walk_name_bounds(data, pos + 1 + b, jumps);
        }
    }
}

/// Reads the question at `pos` of a section; gives it and the position after it.
pub open spec fn parse_question_at(data: Seq<u8>, pos: int) -> Result<(QuestionView, int), ParseError> {
    match parse_name(data, pos) {
        Err(e) => Err(e),
        Ok((name, n)) => {
            let p = pos + n;
            if p + 4 > data.len() {
                Err(ParseError::UnexpectedEnd)
            } else {
                Ok((QuestionView { name, qtype: u16_at(data, p), class: u16_at(data, p + 2) }, p + 4))
            }
        },
    }
}

/// Reads the resource record at `pos` of a section; gives it and the position
/// after it.
pub open spec fn parse_answer_at(data: Seq<u8>, pos: int) -> Result<(AnswerView, int), ParseError> {
    match parse_name(data, pos) {
        Err(e) => Err(e),
        Ok((name, n)) => {
            let p = pos + n;
            if p + 10 > data.len() {
                Err(ParseError::UnexpectedEnd)
            } else {
                let len = u16_at(data, p + 8);
                if p + 10 + len > data.len() {
                    Err(ParseError::UnexpectedEnd)
                } else {
                    Ok(
                        (
                            AnswerView {
                                name,
                                atype: u16_at(data, p),
                                class: u16_at(data, p + 2),
                                ttl: u32_at(data, p + 4),
                                data: data.subrange(p + 10, p + 10 + len),
                            },
                            p + 10 + len,
                        ),
                    )
                }
            }
        },
    }
}

/// Reads exactly `count` questions from `pos` on; gives them and the position
/// after the last. Fails if the section ends before `count` are read.
pub open spec fn parse_questions(data: Seq<u8>, pos: int, count: nat) -> Result<
    (Seq<QuestionView>, int),
    ParseError,
>
    decreases count,
{
    if count == 0 {
        Ok((Seq::empty(), pos))
    } else if pos >= data.len() {
        Err(ParseError::MissingRecords)
    } else {
        match parse_question_at(data, pos) {
            Err(e) => Err(e),
            Ok((q, next)) => match parse_questions(data, next, (count - 1) as nat) {
                Err(e) => Err(e),
                Ok((qs, end)) => Ok((seq![q] + qs, end)),
            },
        }
    }
}

/// Reads exactly `count` resource records from `pos` on; gives them and the
/// position after the last. Fails if the section ends before `count` are read.
pub open spec fn parse_answers(data: Seq<u8>, pos: int, count: nat) -> Result<
    (Seq<AnswerView>, int),
    ParseError,
>
    decreases count,
{
    if count == 0 {
        Ok((Seq::empty(), pos))
    } else if pos >= data.len() {
        Err(ParseError::MissingRecords)
    } else {
        match parse_answer_at(data, pos) {
            Err(e) => Err(e),
            Ok((a, next)) => match parse_answers(data, next, (count - 1) as nat) {
                Err(e) => Err(e),
                Ok((ans, end)) => Ok((seq![a] + ans, end)),
            },
        }
    }
}

/// A message as plain values.
pub struct MessageView {
    pub header: HeaderView,
    pub questions: Seq<QuestionView>,
    pub answers: Seq<AnswerView>,
}

/// Reads `qd_count` questions from the start of a section, then `an_count`
/// resource records from where the questions end.
pub open spec fn parse_sections(data: Seq<u8>, qd_count: u16, an_count: u16) -> Result<
    (Seq<QuestionView>, Seq<AnswerView>),
    ParseError,
> {
    match parse_questions(data, 0, qd_count as nat) {
        Err(e) => Err(e),
        Ok((questions, end)) => match parse_answers(data, end, an_count as nat) {
            Err(e) => Err(e),
            Ok((answers, _)) => Ok((questions, answers)),
        },
    }
}

/// Reads a whole message: the header, then as many questions and answers as it
/// declares, from the byte after the header on.
pub open spec fn parse_message(data: Seq<u8>) -> Result<MessageView, ParseError> {
    if data.len() < HEADER_LEN {
        Err(ParseError::HeaderTooShort)
    } else {
        let header = header_from_wire(data);
        let section = data.subrange(HEADER_LEN as int, data.len() as int);
        match parse_sections(section, header.qd_count, header.an_count) {
            Err(e) => Err(e),
            Ok((questions, answers)) => Ok(MessageView { header, questions, answers }),
        }
    }
}

/// The questions, one after another, on the wire.
pub open spec fn questions_wire(qs: Seq<QuestionView>) -> Seq<u8> {
    qs.map_values(|q: QuestionView| question_wire(q)).flatten()
}

/// The resource records, one after another, on the wire.
pub open spec fn answers_wire(ans: Seq<AnswerView>) -> Seq<u8> {
    ans.map_values(|a: AnswerView| answer_wire(a)).flatten()
}

/// A message on the wire: header, questions, answers.
pub open spec fn message_wire(m: MessageView) -> Seq<u8> {
    header_wire(m.header) + questions_wire(m.questions) + answers_wire(m.answers)
}

/// The views of a sequence of questions.
pub open spec fn question_views(qs: Seq<Question>) -> Seq<QuestionView> {
    qs.map_values(|q: Question| q@)
}

/// The views of a sequence of resource records.
pub open spec fn answer_views(ans: Seq<Answer>) -> Seq<AnswerView> {
    ans.map_values(|a: Answer| a@)
}

/// What a record section read so far becomes once the rest of it is read.
pub open spec fn continue_section<T>(acc: Seq<T>, rest: Result<(Seq<T>, int), ParseError>) -> Result<
    (Seq<T>, int),
    ParseError,
> {
    match rest {
        Err(e) => Err(e),
        Ok((xs, end)) => Ok((acc + xs, end)),
    }
}

/// Appending a question appends its wire form.
pub proof fn lemma_questions_wire_push(qs: Seq<QuestionView>, q: QuestionView)
    ensures
        questions_wire(qs.push(q)) == questions_wire(qs) + question_wire(q),
{
    let f = |x: QuestionView| question_wire(x);
    assert(qs.push(q).map_values(f) =~= qs.map_values(f).push(question_wire(q)));
    qs.map_values(f).lemma_flatten_push(question_wire(q));
}

/// Appending a resource record appends its wire form.
pub proof fn lemma_answers_wire_push(ans: Seq<AnswerView>, a: AnswerView)
    ensures
        answers_wire(ans.push(a)) == answers_wire(ans) + answer_wire(a),
{
    let f = |x: AnswerView| answer_wire(x);
    assert(ans.push(a).map_values(f) =~= ans.map_values(f).push(answer_wire(a)));
    ans.map_values(f).lemma_flatten_push(answer_wire(a));
}

/// A question section that reads successfully ends inside the section.
pub proof fn lemma_questions_end(data: Seq<u8>, pos: int, count: nat)
    requires
        0 <= pos <= data.len(),
    ensures
        parse_questions(data, pos, count) matches Ok((_, end)) ==> pos <= end <= data.len(),
    decreases count,
{
    if count > 0 && pos < data.len() {
        lemma_walk_name_bounds(data, pos, data.len());
        if parse_question_at(data, pos) is Ok {
            lemma_questions_end(data, parse_question_at(data, pos)->Ok_0.1, (count - 1) as nat);
        }
    }
}

/// Relies on `std::str::from_utf8`: it succeeds exactly on valid UTF-8, and
/// the string it returns is made of the same bytes.
#[verifier::external_body]
fn str_from_utf8(bytes: &[u8]) -> (r: Option<&str>)
    ensures
        r is Some <==> valid_utf8(bytes@),
        r matches Some(s) ==> encode_utf8(s@) == bytes@,
{
    std::str::from_utf8(bytes).ok()
}

/// A DNS message: header, questions and answers. The question sequence can be
/// shared, so that a response echoes the questions of its request.
#[derive(Debug)]
pub struct Message {
    header: Rc<Header>,
    questions: Rc<Vec<Question>>,
    answers: Vec<Answer>,
}

impl View for Message {
    type V = MessageView;

    closed spec fn view(&self) -> MessageView {
        MessageView {
            header: self.header@,
            questions: question_views(self.questions@),
            answers: answer_views(self.answers@),
        }
    }
}

impl Message {
    /// A message that shares its header and question sequence with their
    /// other holders.
    pub fn new(header: &Rc<Header>, questions: &Rc<Vec<Question>>, answers: Vec<Answer>) -> (r:
        Message)
        ensures
            r@ == (MessageView {
                header: header@,
                questions: question_views(questions@),
                answers: answer_views(answers@),
            }),
    {
        Message { header: Rc::clone(header), questions: Rc::clone(questions), answers }
    }

    pub fn get_header(&self) -> (r: &Rc<Header>)
        ensures
            r@ == self@.header,
    {
        &self.header
    }

    pub fn get_questions(&self) -> (r: &Rc<Vec<Question>>)
        ensures
            question_views(r@) == self@.questions,
    {
        &self.questions
    }

    pub fn get_answers(&self) -> (r: &Vec<Answer>)
        ensures
            answer_views(r@) == self@.answers,
    {
        &self.answers
    }

    /// The header, then each question, then each answer, in order. Names are
    /// written uncompressed.
    pub fn encode(&self) -> (r: Vec<u8>)
        ensures
            r@ == message_wire(self@),
    {
        let header_bytes: [u8; 12] = self.header.encode();
        let mut result: Vec<u8> = Vec::new();
        append_bytes(&mut result, header_bytes.as_slice());
        assert(result@ =~= header_wire(self@.header));
        let questions: &Vec<Question> = &self.questions;
        let mut i: usize = 0;
        while i < questions.len()
            invariant
                questions@ == self.questions@,
                i <= questions@.len(),
                result@ == header_wire(self@.header) + questions_wire(
                    self@.questions.take(i as int),
                ),
            decreases questions@.len() - i,
        {
            let mut bytes = questions[i].encode();
            proof {
                assert(self@.questions.take(i + 1) =~= self@.questions.take(i as int).push(
                    self@.questions[i as int],
                ));
                lemma_questions_wire_push(
                    self@.questions.take(i as int),
                    self@.questions[i as int],
                );
            }
            result.append(&mut bytes);
            i = i + 1;
        }
        assert(self@.questions.take(i as int) =~= self@.questions);
        let ghost after_questions = result@;
        let mut j: usize = 0;
        while j < self.answers.len()
            invariant
                j <= self.answers@.len(),
                result@ == after_questions + answers_wire(self@.answers.take(j as int)),
            decreases self.answers@.len() - j,
        {
            let mut bytes = self.answers[j].encode();
            proof {
                assert(self@.answers.take(j + 1) =~= self@.answers.take(j as int).push(
                    self@.answers[j as int],
                ));
                lemma_answers_wire_push(self@.answers.take(j as int), self@.answers[j as int]);
            }
            result.append(&mut bytes);
            j = j + 1;
        }
        assert(self@.answers.take(j as int) =~= self@.answers);
        result
    }

    /// Reads a message from a buffer that starts with its header. The header
    /// declares how many questions and answers follow; the buffer must hold
    /// them all.
    pub fn parse_from(data: &[u8]) -> (r: Result<Message, ParseError>)
        ensures
            match r {
                Ok(m) => parse_message(data@) == Ok::<_, ParseError>(m@),
                Err(e) => parse_message(data@) == Err::<MessageView, _>(e),
            },
    {
        if data.len() < HEADER_LEN {
            return Err(ParseError::HeaderTooShort);
        }
        let bytes: [u8; 12] = [
            data[0],
            data[1],
            data[2],
            data[3],
            data[4],
            data[5],
            data[6],
            data[7],
            data[8],
            data[9],
            data[10],
            data[11],
        ];
        let header = Header::parse_from(&bytes);
        assert(header_from_wire(bytes@) == header_from_wire(data@));
        let section: &[u8] = &data[HEADER_LEN..data.len()];
        let (questions, answers) = match Message::parse_questions_and_answers(section, &header) {
            Ok(parsed) => parsed,
            Err(e) => {
                return Err(e);
            },
        };
        Ok(Message { header: Rc::new(header), questions, answers })
    }

    /// Reads the question section from the start of `data` (the message
    /// without its header), then the answer section where it ends, each with
    /// the number of records that `header` declares.
    pub fn parse_questions_and_answers(data: &[u8], header: &Header) -> (r: Result<
        (Rc<Vec<Question>>, Vec<Answer>),
        ParseError,
    >)
        ensures
            match r {
                Ok((qs, ans)) => parse_sections(data@, header@.qd_count, header@.an_count) == Ok::<
                    _,
                    ParseError,
                >((question_views(qs@), answer_views(ans@))),
                Err(e) => parse_sections(data@, header@.qd_count, header@.an_count) == Err::<
                    (Seq<QuestionView>, Seq<AnswerView>),
                    _,
                >(e),
            },
    {
        let (questions, end) = match Message::parse_question_section(data, header.get_qd_count()) {
            Ok(parsed) => parsed,
            Err(e) => {
                return Err(e);
            },
        };
        proof {
            lemma_questions_end(data@, 0, header@.qd_count as nat);
        }
        let (answers, _) = match Message::parse_answer_section(
            data,
            end,
            header.get_an_count(),
        ) {
            Ok(parsed) => parsed,
            Err(e) => {
                return Err(e);
            },
        };
        Ok((Rc::new(questions), answers))
    }

    /// Reads the name that starts at `start` of the section `data` (the
    /// message without its header; pointers count from the message's start).
    /// Gives the name and the number of bytes the enclosing record advances
    /// by: through the terminator, or through both bytes of the first pointer
    /// met. Labels are never longer than `0xBF` bytes, as a larger length byte
    /// marks a pointer.
    pub fn parse_label_sequence(data: &[u8], start: usize) -> (r: Result<
        (Rc<LabelSequence>, usize),
        ParseError,
    >)
        ensures
            match r {
                Ok((name, n)) => parse_name(data@, start as int) == Ok::<_, ParseError>((name@, n as int)),
                Err(e) => parse_name(data@, start as int) == Err::<(Seq<Seq<char>>, int), _>(e),
            },
    {
        let mut labels: Vec<Label> = Vec::new();
        let mut cursor: usize = start;
        let mut jumps: usize = data.len();
        let mut first_pointer: Option<usize> = None;
        loop
            invariant
                jumps <= data@.len(),
                first_pointer is None ==> start <= cursor,
                first_pointer matches Some(p) ==> start <= p && p + 2 <= data@.len(),
                parse_name(data@, start as int) == continue_name(
                    labels@.map_values(|l: Label| l@),
                    match first_pointer {
                        None => None,
                        Some(p) => Some(p as int),
                    },
                    match first_pointer {
                        None => cursor - start,
                        Some(p) => p + 2 - start,
                    },
                    walk_name(data@, cursor as int, jumps as nat),
                ),
            decreases jumps, data@.len() - cursor,
        {
            if cursor >= data.len() {
                return Err(ParseError::UnexpectedEnd);
            }
            let control: u8 = data[cursor];
            if control == 0 {
                let end: usize = match first_pointer {
                    None => cursor,
                    Some(p) => p + 1,
                };
                let name = Rc::new(LabelSequence::new(labels));
                assert(labels@.map_values(|l: Label| l@) + Seq::<Seq<char>>::empty()
                    =~= labels@.map_values(|l: Label| l@));
                return Ok((name, end - start + 1));
            } else if control < 0xC0 {
                let length: usize = control as usize;
                if length > data.len() - cursor - 1 {
                    return Err(ParseError::UnexpectedEnd);
                }
                let end: usize = cursor + 1 + length;
                let bytes: &[u8] = &data[cursor + 1..end];
                match str_from_utf8(bytes) {
                    None => {
                        return Err(ParseError::InvalidLabel);
                    },
                    Some(text) => {
                        proof {
                            encode_utf8_decode_utf8(text@);
                        }
                        let ghost before = labels@.map_values(|l: Label| l@);
                        labels.push(Label::new(text));
                        assert(labels@.map_values(|l: Label| l@) =~= before.push(text@));
                        assert(before + (seq![text@] + walk_name(data@, end as int, jumps as nat)->Ok_0.0)
                            =~= before.push(text@) + walk_name(data@, end as int, jumps as nat)->Ok_0.0);
                        cursor = end;
                    },
                }
            } else {
                if cursor + 1 >= data.len() {
                    return Err(ParseError::UnexpectedEnd);
                }
                let offset: usize = ((control & 0x3F) as usize) * 0x100 + data[cursor + 1] as usize;
                if offset < HEADER_LEN {
                    return Err(ParseError::PointerIntoHeader);
                }
                if jumps == 0 {
                    return Err(ParseError::PointerLoop);
                }
                if first_pointer.is_none() {
                    first_pointer = Some(cursor);
                }
                jumps = jumps - 1;
                cursor = offset - HEADER_LEN;
            }
        }
    }

    /// Reads exactly `expected` questions from the start of the section;
    /// gives them and the position after the last.
    pub fn parse_question_section(data: &[u8], expected: u16) -> (r: Result<
        (Vec<Question>, usize),
        ParseError,
    >)
        ensures
            match r {
                Ok((qs, end)) => parse_questions(data@, 0, expected as nat) == Ok::<_, ParseError>(
                    (question_views(qs@), end as int),
                ),
                Err(e) => parse_questions(data@, 0, expected as nat) == Err::<
                    (Seq<QuestionView>, int),
                    _,
                >(e),
            },
    {
        let mut questions: Vec<Question> = Vec::new();
        let mut count: u16 = 0;
        let mut cursor: usize = 0;
        while count < expected
            invariant
                count <= expected,
                cursor <= data@.len(),
                parse_questions(data@, 0, expected as nat) == continue_section(
                    question_views(questions@),
                    parse_questions(data@, cursor as int, (expected - count) as nat),
                ),
            decreases expected - count,
        {
            if cursor >= data.len() {
                return Err(ParseError::MissingRecords);
            }
            let (name, length) = match Message::parse_label_sequence(data, cursor) {
                Ok(parsed) => parsed,
                Err(e) => {
                    return Err(e);
                },
            };
            proof {
                lemma_walk_name_bounds(data@, cursor as int, data@.len());
            }
            let p: usize = cursor + length;
            if data.len() < 4 || p > data.len() - 4 {
                return Err(ParseError::UnexpectedEnd);
            }
            let qtype = read_u16(data, p);
            let class = read_u16(data, p + 2);
            let ghost before = question_views(questions@);
            let question = Question::new(&name, qtype, class);
            questions.push(question);
            proof {
                let rest = parse_questions(data@, (p + 4) as int, (expected - count - 1) as nat);
                assert(question_views(questions@) =~= before.push(question@));
                if rest is Ok {
                    assert(before + (seq![question@] + rest->Ok_0.0) =~= before.push(question@)
                        + rest->Ok_0.0);
                }
            }
            cursor = p + 4;
            count = count + 1;
        }
        assert(question_views(questions@) + Seq::<QuestionView>::empty() =~= question_views(
            questions@,
        ));
        Ok((questions, cursor))
    }

    /// Reads exactly `expected` resource records from `start` on; gives them
    /// and the position after the last.
    pub fn parse_answer_section(data: &[u8], start: usize, expected: u16) -> (r: Result<
        (Vec<Answer>, usize),
        ParseError,
    >)
        requires
            start <= data@.len(),
        ensures
            match r {
                Ok((ans, end)) => parse_answers(data@, start as int, expected as nat) == Ok::<
                    _,
                    ParseError,
                >((answer_views(ans@), end as int)),
                Err(e) => parse_answers(data@, start as int, expected as nat) == Err::<
                    (Seq<AnswerView>, int),
                    _,
                >(e),
            },
    {
        let mut answers: Vec<Answer> = Vec::new();
        let mut count: u16 = 0;
        let mut cursor: usize = start;
        while count < expected
            invariant
                count <= expected,
                cursor <= data@.len(),
                parse_answers(data@, start as int, expected as nat) == continue_section(
                    answer_views(answers@),
                    parse_answers(data@, cursor as int, (expected - count) as nat),
                ),
            decreases expected - count,
        {
            if cursor >= data.len() {
                return Err(ParseError::MissingRecords);
            }
            let (name, length) = match Message::parse_label_sequence(data, cursor) {
                Ok(parsed) => parsed,
                Err(e) => {
                    return Err(e);
                },
            };
            proof {
                lemma_walk_name_bounds(data@, cursor as int, data@.len());
            }
            let p: usize = cursor + length;
            if data.len() < 10 || p > data.len() - 10 {
                return Err(ParseError::UnexpectedEnd);
            }
            let atype = read_u16(data, p);
            let class = read_u16(data, p + 2);
            let ttl = read_u32(data, p + 4);
            let data_length = read_u16(data, p + 8) as usize;
            if data_length > data.len() - p - 10 {
                return Err(ParseError::UnexpectedEnd);
            }
            let rdata = copy_bytes(&data[p + 10..p + 10 + data_length]);
            let ghost before = answer_views(answers@);
            let answer = Answer::new(&name, atype, class, ttl, rdata);
            answers.push(answer);
            proof {
                let rest = parse_answers(
                    data@,
                    (p + 10 + data_length) as int,
                    (expected - count - 1) as nat,
                );
                assert(answer_views(answers@) =~= before.push(answer@));
                if rest is Ok {
                    assert(before + (seq![answer@] + rest->Ok_0.0) =~= before.push(answer@)
                        + rest->Ok_0.0);
                }
            }
            cursor = p + 10 + data_length;
            count = count + 1;
        }
        assert(answer_views(answers@) + Seq::<AnswerView>::empty() =~= answer_views(answers@));
        Ok((answers, cursor))
    }
}

} // verus!

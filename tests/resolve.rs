use std::rc::Rc;

use dns_server::header::{Header, OpCode, RCode};
use dns_server::message::{Message, ParseError};
use dns_server::name::{Label, LabelSequence};
use dns_server::record::{Answer, Question};
use dns_server::resolver::{
    forward_header, DummyDnsResolver, ForwardAction, ForwardReply, ForwardingSession, Resolve,
};
use dns_server::server::respond;

fn name(parts: &[&str]) -> Rc<LabelSequence> {
    Rc::new(LabelSequence::new(parts.iter().map(|p| Label::new(p)).collect()))
}

fn request_header(opcode: OpCode) -> Header {
    let mut h = Header::default();
    h.set_id(0x4242)
        .set_opcode(&Rc::new(opcode))
        .set_rd(true)
        .set_qd_count(2);
    h
}

fn upstream_reply(id: u16, answers: Vec<Answer>) -> Vec<u8> {
    let mut h = Header::default();
    h.set_id(id).set_qr(true).set_an_count(answers.len() as u16);
    Message::new(&Rc::new(h), &Rc::new(Vec::new()), answers).encode()
}

#[test]
fn synthetic_resolver_one_question() {
    let q = Question::new(&name(&["www", "example"]), 1, 1);
    let answers = DummyDnsResolver {}.resolve(&Header::default(), &[q]);
    assert_eq!(answers.len(), 1);
    assert_eq!(answers[0].get_data(), &vec![8, 8, 8, 8]);
    assert_eq!(answers[0].get_ttl(), 60);
    assert_eq!(answers[0].get_type(), 1);
    assert_eq!(answers[0].get_class(), 1);
    assert_eq!(answers[0].get_name().get_labels()[0].get_content(), "www");
}

#[test]
fn synthetic_resolver_shares_names() {
    let n = name(&["a", "b"]);
    let qs = vec![
        Question::new(&n, 28, 1),
        Question::new(&name(&["c"]), 1, 3),
    ];
    let answers = DummyDnsResolver {}.resolve(&Header::default(), &qs);
    assert_eq!(answers.len(), 2);
    assert!(Rc::ptr_eq(answers[0].get_name(), &n));
    assert_eq!(answers[1].get_name().get_labels()[0].get_content(), "c");
    assert_eq!(answers[1].get_type(), 1);
}

#[test]
fn synthetic_resolver_no_questions() {
    assert!(DummyDnsResolver {}.resolve(&Header::default(), &[]).is_empty());
}

#[test]
fn forward_header_fields() {
    let h = forward_header(&request_header(OpCode::Status));
    assert_eq!(h.get_id(), 0x4242);
    assert!(!h.get_qr());
    assert_eq!(**h.get_opcode(), OpCode::Status);
    assert!(!h.get_rd());
    assert_eq!(h.get_qd_count(), 1);
    assert_eq!(h.get_an_count(), 0);
}

#[test]
fn forwarded_request_holds_one_question() {
    let qs = vec![
        Question::new(&name(&["a"]), 1, 1),
        Question::new(&name(&["b"]), 1, 1),
    ];
    let session = ForwardingSession::new(&request_header(OpCode::Query), &qs);
    match session.next_action() {
        ForwardAction::Send(bytes) => {
            assert_eq!(
                bytes,
                vec![0x42, 0x42, 0, 0, 0, 1, 0, 0, 0, 0, 0, 0, 1, b'a', 0, 0, 1, 0, 1]
            );
        }
        ForwardAction::Done => panic!("expected a request"),
    }
}

#[test]
fn forwarding_partial_failure() {
    let qs = vec![
        Question::new(&name(&["a"]), 1, 1),
        Question::new(&name(&["b"]), 1, 1),
    ];
    let mut session = ForwardingSession::new(&request_header(OpCode::Query), &qs);
    assert!(!session.is_done());
    let first = upstream_reply(
        0x4242,
        vec![
            Answer::new(&name(&["a"]), 1, 1, 30, vec![1, 1, 1, 1]),
            Answer::new(&name(&["a"]), 1, 1, 30, vec![2, 2, 2, 2]),
        ],
    );
    session.on_reply(ForwardReply::Received(first)).unwrap();
    match session.next_action() {
        ForwardAction::Send(bytes) => assert_eq!(bytes[13], b'b'),
        ForwardAction::Done => panic!("expected a second request"),
    }
    session.on_reply(ForwardReply::Failed).unwrap();
    assert!(session.is_done());
    assert!(matches!(session.next_action(), ForwardAction::Done));
    let answers = session.into_answers();
    assert_eq!(answers.len(), 2);
    assert_eq!(answers[0].get_data(), &vec![1, 1, 1, 1]);
    assert_eq!(answers[1].get_data(), &vec![2, 2, 2, 2]);
}

#[test]
fn forwarding_failure_first_then_success() {
    let qs = vec![
        Question::new(&name(&["a"]), 1, 1),
        Question::new(&name(&["b"]), 1, 1),
    ];
    let mut session = ForwardingSession::new(&request_header(OpCode::Query), &qs);
    session.on_reply(ForwardReply::Failed).unwrap();
    let second = upstream_reply(1, vec![Answer::new(&name(&["b"]), 1, 1, 9, vec![9])]);
    session.on_reply(ForwardReply::Received(second)).unwrap();
    let answers = session.into_answers();
    assert_eq!(answers.len(), 1);
    assert_eq!(answers[0].get_ttl(), 9);
}

#[test]
fn forwarding_malformed_reply_is_an_error() {
    let qs = vec![Question::new(&name(&["a"]), 1, 1)];
    let mut session = ForwardingSession::new(&request_header(OpCode::Query), &qs);
    assert_eq!(
        session.on_reply(ForwardReply::Received(vec![1, 2])),
        Err(ParseError::HeaderTooShort)
    );
    assert!(!session.is_done());
}

#[test]
fn response_to_standard_query() {
    let mut h = request_header(OpCode::Query);
    h.set_qd_count(1);
    let request = Message::new(
        &Rc::new(h),
        &Rc::new(vec![Question::new(&name(&["a"]), 1, 1)]),
        Vec::new(),
    );
    let answers = DummyDnsResolver {}.resolve(request.get_header(), request.get_questions());
    let response = respond(&request, answers);
    let rh = response.get_header();
    assert_eq!(rh.get_id(), 0x4242);
    assert!(rh.get_qr());
    assert!(rh.get_rd());
    assert_eq!(**rh.get_rcode(), RCode::NoError);
    assert_eq!(rh.get_qd_count(), 1);
    assert_eq!(rh.get_an_count(), 1);
    assert!(Rc::ptr_eq(response.get_questions(), request.get_questions()));
    assert_eq!(
        response.encode(),
        vec![
            0x42, 0x42, 0x81, 0x00, 0, 1, 0, 1, 0, 0, 0, 0, 1, b'a', 0, 0, 1, 0, 1, 1, b'a', 0, 0,
            1, 0, 1, 0, 0, 0, 60, 0, 4, 8, 8, 8, 8
        ]
    );
}

#[test]
fn response_to_other_opcode_is_not_implemented() {
    let request = Message::new(
        &Rc::new(request_header(OpCode::IQuery)),
        &Rc::new(Vec::new()),
        Vec::new(),
    );
    let response = respond(&request, Vec::new());
    assert_eq!(**response.get_header().get_rcode(), RCode::NotImplemented);
    assert_eq!(**response.get_header().get_opcode(), OpCode::IQuery);
    assert_eq!(response.get_header().get_an_count(), 0);
}

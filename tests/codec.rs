use std::rc::Rc;

use dns_server::header::{Header, OpCode, OpCodeParseError, RCode, RCodeParseError};
use dns_server::message::{Message, ParseError};
use dns_server::name::{Label, LabelSequence};
use dns_server::record::{Answer, Question};

fn name(parts: &[&str]) -> Rc<LabelSequence> {
    Rc::new(LabelSequence::new(parts.iter().map(|p| Label::new(p)).collect()))
}

fn header_with_counts(id: u16, qd: u16, an: u16) -> Header {
    let mut h = Header::default();
    h.set_id(id).set_qd_count(qd).set_an_count(an);
    h
}

#[test]
fn header_bit_packing() {
    let mut h = Header::default();
    h.set_id(0x1234)
        .set_qr(true)
        .set_opcode(&Rc::new(OpCode::Query))
        .set_rd(true);
    assert_eq!(
        h.encode(),
        [0x12, 0x34, 0b1000_0001, 0x00, 0, 0, 0, 0, 0, 0, 0, 0]
    );
}

#[test]
fn header_fields_and_counts_encode() {
    let mut h = Header::default();
    h.set_id(0xABCD)
        .set_opcode(&Rc::new(OpCode::Status))
        .set_rcode(&Rc::new(RCode::NotImplemented))
        .set_qd_count(0x0102)
        .set_an_count(0x0304);
    assert_eq!(
        h.encode(),
        [0xAB, 0xCD, 0x10, 0x04, 0x01, 0x02, 0x03, 0x04, 0, 0, 0, 0]
    );
}

#[test]
fn header_parse_reads_every_field() {
    let bytes: [u8; 12] = [0x12, 0x34, 0xFF, 0xF3, 0, 2, 0, 3, 0, 4, 0, 5];
    let h = Header::parse_from(&bytes);
    assert_eq!(h.get_id(), 0x1234);
    assert!(h.get_qr());
    assert_eq!(**h.get_opcode(), OpCode::Unassigned(15));
    assert!(h.get_rd());
    assert_eq!(**h.get_rcode(), RCode::NameError);
    assert_eq!(h.get_qd_count(), 2);
    assert_eq!(h.get_an_count(), 3);
    // The reserved bits are read but written back as zero.
    assert_eq!(h.encode(), [0x12, 0x34, 0xFF, 0x83, 0, 2, 0, 3, 0, 4, 0, 5]);
}

#[test]
fn header_round_trip() {
    let mut h = Header::default();
    h.set_id(7)
        .set_qr(true)
        .set_opcode(&Rc::new(OpCode::DnsStatefulOperations))
        .set_rd(true)
        .set_rcode(&Rc::new(RCode::Unassigned(9)))
        .set_qd_count(1)
        .set_an_count(2);
    let back = Header::parse_from(&h.encode());
    assert_eq!(back.get_id(), 7);
    assert!(back.get_qr());
    assert_eq!(**back.get_opcode(), OpCode::DnsStatefulOperations);
    assert!(back.get_rd());
    assert_eq!(**back.get_rcode(), RCode::Unassigned(9));
    assert_eq!(back.get_qd_count(), 1);
    assert_eq!(back.get_an_count(), 2);
}

#[test]
fn opcode_conversions() {
    assert_eq!(u8::from(&OpCode::Notify), 4);
    assert_eq!(u8::from(&OpCode::Unassigned(11)), 11);
    assert_eq!(OpCode::try_from(3).unwrap(), OpCode::Unassigned(3));
    assert_eq!(OpCode::try_from(5).unwrap(), OpCode::Update);
    assert_eq!(OpCode::try_from(15).unwrap(), OpCode::Unassigned(15));
    let err: OpCodeParseError = OpCode::try_from(16).unwrap_err();
    assert_eq!(err.value, 16);
    assert!(OpCode::from_value(255).is_err());
    assert_eq!(OpCode::default(), OpCode::Query);
}

#[test]
fn rcode_conversions() {
    assert_eq!(u8::from(&RCode::Refused), 5);
    assert_eq!(RCode::try_from(4).unwrap(), RCode::NotImplemented);
    assert_eq!(RCode::try_from(6).unwrap(), RCode::Unassigned(6));
    let err: RCodeParseError = RCode::try_from(200).unwrap_err();
    assert_eq!(err.value, 200);
    assert_eq!(RCode::default(), RCode::NoError);
}

#[test]
fn label_encode() {
    assert_eq!(Label::new("abc").encode(), vec![3, b'a', b'b', b'c']);
    assert_eq!(Label::new("abc").get_content(), "abc");
}

#[test]
fn label_encode_counts_utf8_bytes() {
    assert_eq!(Label::new("é").encode(), vec![2, 0xC3, 0xA9]);
}

#[test]
fn name_encode() {
    let n = LabelSequence::new(vec![Label::new("abc"), Label::new("com")]);
    assert_eq!(
        n.encode(),
        vec![3, b'a', b'b', b'c', 3, b'c', b'o', b'm', 0]
    );
    assert_eq!(n.get_labels().len(), 2);
}

#[test]
fn empty_name_encodes_as_terminator() {
    assert_eq!(LabelSequence::new(Vec::new()).encode(), vec![0]);
}

#[test]
fn question_encode() {
    let q = Question::new(&name(&["a"]), 1, 0x0102);
    assert_eq!(q.encode(), vec![1, b'a', 0, 0, 1, 1, 2]);
}

#[test]
fn question_setters() {
    let mut q = Question::new(&name(&["a"]), 1, 1);
    q.set_type(28);
    q.set_class(3);
    q.set_name(LabelSequence::new(vec![Label::new("bc")]));
    assert_eq!(q.get_type(), 28);
    assert_eq!(q.get_class(), 3);
    assert_eq!(q.encode(), vec![2, b'b', b'c', 0, 0, 28, 0, 3]);
}

#[test]
fn answer_encode() {
    let a = Answer::new(&name(&["a"]), 1, 1, 0x01020304, vec![8, 8, 8, 8]);
    assert_eq!(
        a.encode(),
        vec![1, b'a', 0, 0, 1, 0, 1, 1, 2, 3, 4, 0, 4, 8, 8, 8, 8]
    );
    assert_eq!(a.get_length(), 4);
    assert_eq!(a.get_data_length(), 4);
    assert_eq!(a.get_ttl(), 0x01020304);
}

#[test]
fn answer_setters() {
    let mut a = Answer::new(&name(&["a"]), 1, 1, 60, vec![1]);
    a.set_type(16);
    a.set_class(2);
    a.set_ttl(5);
    a.set_data(vec![1, 2, 3]);
    a.set_name(LabelSequence::new(Vec::new()));
    assert_eq!(a.get_type(), 16);
    assert_eq!(a.get_class(), 2);
    assert_eq!(a.get_data(), &vec![1, 2, 3]);
    assert_eq!(a.encode(), vec![0, 0, 16, 0, 2, 0, 0, 0, 5, 0, 3, 1, 2, 3]);
}

fn sample_message() -> Message {
    let header = Rc::new(header_with_counts(0xBEEF, 2, 1));
    let questions = Rc::new(vec![
        Question::new(&name(&["www", "example"]), 1, 1),
        Question::new(&name(&["example", "com"]), 28, 1),
    ]);
    let answers = vec![Answer::new(&name(&["example", "com"]), 1, 1, 3600, vec![76, 76, 21, 21])];
    Message::new(&header, &questions, answers)
}

#[test]
fn message_round_trip() {
    let m = sample_message();
    let bytes = m.encode();
    let back = Message::parse_from(&bytes).unwrap();
    assert_eq!(back.encode(), bytes);
    assert_eq!(back.get_header().get_id(), 0xBEEF);
    assert_eq!(back.get_header().get_qd_count(), 2);
    assert_eq!(back.get_header().get_an_count(), 1);
    let qs = back.get_questions();
    assert_eq!(qs.len(), 2);
    assert_eq!(qs[0].get_name().get_labels()[0].get_content(), "www");
    assert_eq!(qs[0].get_name().get_labels()[1].get_content(), "example");
    assert_eq!(qs[1].get_type(), 28);
    let ans = back.get_answers();
    assert_eq!(ans.len(), 1);
    assert_eq!(ans[0].get_ttl(), 3600);
    assert_eq!(ans[0].get_data(), &vec![76, 76, 21, 21]);
    assert_eq!(ans[0].get_name().get_labels()[0].get_content(), "example");
}

#[test]
fn message_encode_layout() {
    let header = Rc::new(header_with_counts(1, 1, 0));
    let questions = Rc::new(vec![Question::new(&name(&["a"]), 1, 1)]);
    let m = Message::new(&header, &questions, Vec::new());
    assert_eq!(
        m.encode(),
        vec![0, 1, 0, 0, 0, 1, 0, 0, 0, 0, 0, 0, 1, b'a', 0, 0, 1, 0, 1]
    );
}

/// A message whose question names `abc.com` at byte 12 and whose answer
/// names it again through a pointer to byte 12.
fn compressed_message() -> Vec<u8> {
    let mut b = vec![0, 9, 0x81, 0x80, 0, 1, 0, 1, 0, 0, 0, 0];
    b.extend_from_slice(&[3, b'a', b'b', b'c', 3, b'c', b'o', b'm', 0, 0, 1, 0, 1]);
    b.extend_from_slice(&[0xC0, 0x0C, 0, 1, 0, 1, 0, 0, 0, 60, 0, 4, 1, 2, 3, 4]);
    b
}

#[test]
fn compression_pointer_expands() {
    let m = Message::parse_from(&compressed_message()).unwrap();
    let ans = &m.get_answers()[0];
    let labels = ans.get_name().get_labels();
    assert_eq!(labels.len(), 2);
    assert_eq!(labels[0].get_content(), "abc");
    assert_eq!(labels[1].get_content(), "com");
    assert_eq!(ans.get_ttl(), 60);
    assert_eq!(ans.get_data(), &vec![1, 2, 3, 4]);
    // Encoding never compresses: the name comes out in full.
    assert_eq!(
        ans.get_name().encode(),
        vec![3, b'a', b'b', b'c', 3, b'c', b'o', b'm', 0]
    );
    assert_ne!(m.encode(), compressed_message());
}

#[test]
fn compressed_name_advances_past_both_pointer_bytes() {
    // Section: "abc.com" at 0; at 9, the label "x" then a pointer to 0.
    let section = [
        3, b'a', b'b', b'c', 3, b'c', b'o', b'm', 0, 1, b'x', 0xC0, 12, 0xAA,
    ];
    let (n, len) = Message::parse_label_sequence(&section, 9).unwrap();
    let labels = n.get_labels();
    assert_eq!(labels.len(), 3);
    assert_eq!(labels[0].get_content(), "x");
    assert_eq!(labels[2].get_content(), "com");
    assert_eq!(len, 4);
    let (_, plain_len) = Message::parse_label_sequence(&section, 0).unwrap();
    assert_eq!(plain_len, 9);
}

#[test]
fn chained_pointers_count_from_the_first() {
    // At 0 "a" and end; at 3 a pointer to 0; at 5 "b" and a pointer to 3.
    let section = [1, b'a', 0, 0xC0, 12, 1, b'b', 0xC0, 15];
    let (n, len) = Message::parse_label_sequence(&section, 5).unwrap();
    let labels = n.get_labels();
    assert_eq!(labels.len(), 2);
    assert_eq!(labels[0].get_content(), "b");
    assert_eq!(labels[1].get_content(), "a");
    assert_eq!(len, 4);
}

#[test]
fn strict_question_count() {
    let header = Rc::new(header_with_counts(1, 2, 0));
    let questions = Rc::new(vec![Question::new(&name(&["a"]), 1, 1)]);
    let bytes = Message::new(&header, &questions, Vec::new()).encode();
    assert_eq!(
        Message::parse_from(&bytes).unwrap_err(),
        ParseError::MissingRecords
    );
}

#[test]
fn strict_answer_count() {
    let header = Rc::new(header_with_counts(1, 1, 2));
    let questions = Rc::new(vec![Question::new(&name(&["a"]), 1, 1)]);
    let answers = vec![Answer::new(&name(&["a"]), 1, 1, 1, vec![1])];
    let bytes = Message::new(&header, &questions, answers).encode();
    assert_eq!(
        Message::parse_from(&bytes).unwrap_err(),
        ParseError::MissingRecords
    );
}

#[test]
fn short_buffer_is_refused() {
    assert_eq!(
        Message::parse_from(&[0, 1, 2]).unwrap_err(),
        ParseError::HeaderTooShort
    );
}

#[test]
fn header_only_message_parses() {
    let m = Message::parse_from(&[0, 5, 0, 0, 0, 0, 0, 0, 0, 0, 0, 0]).unwrap();
    assert_eq!(m.get_header().get_id(), 5);
    assert!(m.get_questions().is_empty());
    assert!(m.get_answers().is_empty());
}

#[test]
fn trailing_bytes_are_ignored() {
    let mut bytes = sample_message().encode();
    let len = bytes.len();
    bytes.resize(512, 0);
    let m = Message::parse_from(&bytes).unwrap();
    assert_eq!(m.encode().len(), len);
}

#[test]
fn label_past_end_is_refused() {
    assert_eq!(
        Message::parse_label_sequence(&[5, b'a', b'b'], 0).unwrap_err(),
        ParseError::UnexpectedEnd
    );
    assert_eq!(
        Message::parse_label_sequence(&[1, b'a'], 0).unwrap_err(),
        ParseError::UnexpectedEnd
    );
    assert_eq!(
        Message::parse_label_sequence(&[0xC0], 0).unwrap_err(),
        ParseError::UnexpectedEnd
    );
}

#[test]
fn invalid_utf8_label_is_refused() {
    assert_eq!(
        Message::parse_label_sequence(&[2, 0xFF, 0xFE, 0], 0).unwrap_err(),
        ParseError::InvalidLabel
    );
}

#[test]
fn pointer_into_header_is_refused() {
    assert_eq!(
        Message::parse_label_sequence(&[0xC0, 0x05], 0).unwrap_err(),
        ParseError::PointerIntoHeader
    );
}

#[test]
fn pointer_cycle_is_refused() {
    assert_eq!(
        Message::parse_label_sequence(&[0xC0, 0x0C], 0).unwrap_err(),
        ParseError::PointerLoop
    );
    assert_eq!(
        Message::parse_label_sequence(&[0xC0, 0x0E, 0xC0, 0x0C], 0).unwrap_err(),
        ParseError::PointerLoop
    );
}

#[test]
fn truncated_record_is_refused() {
    let mut bytes = sample_message().encode();
    bytes.truncate(bytes.len() - 2);
    assert_eq!(
        Message::parse_from(&bytes).unwrap_err(),
        ParseError::UnexpectedEnd
    );
}

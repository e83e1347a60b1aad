//! The decisions of the server loop: the response that a request and its
//! answers make.
use std::rc::Rc;
use vstd::prelude::*;

use crate::header::{Header, HeaderView, OpCode, RCode};
use crate::message::{answer_views, Message, MessageView};
use crate::record::Answer;

verus! {

/// The header of the response to a request with header `req` and `count`
/// answers: identifier, operation code and recursion-desired copied, marked as
/// a response, `NoError` for a standard query and `NotImplemented` otherwise,
/// the request's question count and the number of answers.
pub open spec fn response_header_view(req: HeaderView, count: nat) -> HeaderView {
    HeaderView {
        id: req.id,
        qr: true,
        opcode: req.opcode,
        aa: false,
        tc: false,
        rd: req.rd,
        ra: false,
        z: 0,
        rcode: if req.opcode == OpCode::Query {
            RCode::NoError
        } else {
            RCode::NotImplemented
        },
        qd_count: req.qd_count,
        an_count: count as u16,
        ns_count: 0,
        ar_count: 0,
    }
}

/// The response to `request`: its own header, the request's question sequence
/// (shared, not copied) and `answers`.
pub fn respond(request: &Message, answers: Vec<Answer>) -> (r: Message)
    requires
        answers@.len() <= u16::MAX,
    ensures
        r@ == (MessageView {
            header: response_header_view(request@.header, answers@.len()),
            questions: request@.questions,
            answers: answer_views(answers@),
        }),
{
    let req: &Header = request.get_header();
    let opcode: OpCode = **req.get_opcode();
    let rcode: RCode = if opcode == OpCode::Query {
        RCode::NoError
    } else {
        RCode::NotImplemented
    };
    let mut header = Header::default();
    header.set_id(req.get_id());
    header.set_qr(true);
    header.set_opcode(req.get_opcode());
    header.set_rd(req.get_rd());
    header.set_rcode(&Rc::new(rcode));
    header.set_qd_count(req.get_qd_count());
    header.set_an_count(answers.len() as u16);
    Message::new(&Rc::new(header), request.get_questions(), answers)
}

} // verus!

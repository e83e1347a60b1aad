//! The two record shapes built on a name: questions and answers.
use std::rc::Rc;
use vstd::prelude::*;

use crate::name::{name_wire, LabelSequence};
use crate::wire::{append_bytes, be16, be32, push_u16, push_u32};

verus! {

/// The largest record data that the 16-bit length field can announce.
pub const MAX_DATA_LEN: usize = 0xFFFF;

/// A question as plain values.
pub struct QuestionView {
    pub name: Seq<Seq<char>>,
    pub qtype: u16,
    pub class: u16,
}

/// A resource record as plain values.
pub struct AnswerView {
    pub name: Seq<Seq<char>>,
    pub atype: u16,
    pub class: u16,
    pub ttl: u32,
    pub data: Seq<u8>,
}

/// A question on the wire: its name, type and class.
pub open spec fn question_wire(q: QuestionView) -> Seq<u8> {
    name_wire(q.name) + be16(q.qtype) + be16(q.class)
}

/// A resource record on the wire: name, type, class, time to live, the
/// length of its data and the data.
pub open spec fn answer_wire(a: AnswerView) -> Seq<u8> {
    name_wire(a.name) + be16(a.atype) + be16(a.class) + be32(a.ttl) + be16(a.data.len() as u16)
        + a.data
}

/// A copy of the bytes of a slice.
pub fn copy_bytes(src: &[u8]) -> (r: Vec<u8>)
    ensures
        r@ == src@,
{
    let mut r: Vec<u8> = Vec::new();
    append_bytes(&mut r, src);
    assert(r@ =~= src@);
    r
}

/// A question: the name asked about, with its type and class.
#[derive(Clone, Debug)]
pub struct Question {
    name: Rc<LabelSequence>,
    qtype: u16,
    class: u16,
}

impl View for Question {
    type V = QuestionView;

    closed spec fn view(&self) -> QuestionView {
        QuestionView { name: self.name@, qtype: self.qtype, class: self.class }
    }
}

impl Question {
    /// A question that shares `name` with its other holders.
    pub fn new(name: &Rc<LabelSequence>, qtype: u16, class: u16) -> (r: Question)
        ensures
            r@ == (QuestionView { name: name@, qtype, class }),
    {
        Question { name: Rc::clone(name), qtype, class }
    }

    pub fn get_name(&self) -> (r: &Rc<LabelSequence>)
        ensures
            r@ == self@.name,
    {
        &self.name
    }

    pub fn set_name(&mut self, name: LabelSequence)
        ensures
            final(self)@ == (QuestionView { name: name@, ..old(self)@ }),
    {
        self.name = Rc::new(name);
    }

    pub fn get_type(&self) -> (r: u16)
        ensures
            r == self@.qtype,
    {
        self.qtype
    }

    pub fn set_type(&mut self, qtype: u16)
        ensures
            final(self)@ == (QuestionView { qtype, ..old(self)@ }),
    {
        self.qtype = qtype;
    }

    pub fn get_class(&self) -> (r: u16)
        ensures
            r == self@.class,
    {
        self.class
    }

    pub fn set_class(&mut self, class: u16)
        ensures
            final(self)@ == (QuestionView { class, ..old(self)@ }),
    {
        self.class = class;
    }

    /// The name, then type and class as big-endian 16-bit values.
    pub fn encode(&self) -> (r: Vec<u8>)
        ensures
            r@ == question_wire(self@),
    {
        let mut result: Vec<u8> = self.name.encode();
        push_u16(&mut result, self.qtype);
        push_u16(&mut result, self.class);
        result
    }
}

/// A resource record. Its data is at most `MAX_DATA_LEN` bytes long, so that
/// its length fits the 16-bit field in front of it.
#[derive(Debug)]
pub struct Answer {
    name: Rc<LabelSequence>,
    atype: u16,
    class: u16,
    ttl: u32,
    data: Vec<u8>,
}

impl View for Answer {
    type V = AnswerView;

    closed spec fn view(&self) -> AnswerView {
        AnswerView {
            name: self.name@,
            atype: self.atype,
            class: self.class,
            ttl: self.ttl,
            data: self.data@,
        }
    }
}

impl Clone for Answer {
    fn clone(&self) -> (r: Answer)
        ensures
            r@ == self@,
    {
        proof {
            use_type_invariant(self);
        }
        Answer {
            name: Rc::clone(&self.name),
            atype: self.atype,
            class: self.class,
            ttl: self.ttl,
            data: copy_bytes(self.data.as_slice()),
        }
    }
}

impl Answer {
    #[verifier::type_invariant]
    spec fn data_fits(self) -> bool {
        self.data@.len() <= MAX_DATA_LEN
    }

    /// A record that shares `name` with its other holders.
    pub fn new(name: &Rc<LabelSequence>, atype: u16, class: u16, ttl: u32, data: Vec<u8>) -> (r:
        Answer)
        requires
            data@.len() <= MAX_DATA_LEN,
        ensures
            r@ == (AnswerView { name: name@, atype, class, ttl, data: data@ }),
    {
        Answer { name: Rc::clone(name), atype, class, ttl, data }
    }

    pub fn get_name(&self) -> (r: &Rc<LabelSequence>)
        ensures
            r@ == self@.name,
    {
        &self.name
    }

    pub fn set_name(&mut self, name: LabelSequence)
        ensures
            final(self)@ == (AnswerView { name: name@, ..old(self)@ }),
    {
        proof {
            use_type_invariant(&*self);
        }
        self.name = Rc::new(name);
    }

    pub fn get_type(&self) -> (r: u16)
        ensures
            r == self@.atype,
    {
        self.atype
    }

    pub fn set_type(&mut self, atype: u16)
        ensures
            final(self)@ == (AnswerView { atype, ..old(self)@ }),
    {
        proof {
            use_type_invariant(&*self);
        }
        self.atype = atype;
    }

    pub fn get_class(&self) -> (r: u16)
        ensures
            r == self@.class,
    {
        self.class
    }

    pub fn set_class(&mut self, class: u16)
        ensures
            final(self)@ == (AnswerView { class, ..old(self)@ }),
    {
        proof {
            use_type_invariant(&*self);
        }
        self.class = class;
    }

    pub fn get_ttl(&self) -> (r: u32)
        ensures
            r == self@.ttl,
    {
        self.ttl
    }

    pub fn set_ttl(&mut self, ttl: u32)
        ensures
            final(self)@ == (AnswerView { ttl, ..old(self)@ }),
    {
        proof {
            use_type_invariant(&*self);
        }
        self.ttl = ttl;
    }

    /// The length of the record data, as written on the wire.
    pub fn get_length(&self) -> (r: u16)
        ensures
            r == self@.data.len(),
    {
        proof {
            use_type_invariant(self);
        }
        self.data.len() as u16
    }

    /// The length of the record data, as written on the wire.
    pub fn get_data_length(&self) -> (r: u16)
        ensures
            r == self@.data.len(),
    {
        self.get_length()
    }

    pub fn get_data(&self) -> (r: &Vec<u8>)
        ensures
            r@ == self@.data,
            r@.len() <= MAX_DATA_LEN,
    {
        proof {
            use_type_invariant(self);
        }
        &self.data
    }

    pub fn set_data(&mut self, data: Vec<u8>)
        requires
            data@.len() <= MAX_DATA_LEN,
        ensures
            final(self)@ == (AnswerView { data: data@, ..old(self)@ }),
    {
        self.data = data;
    }

    /// The name, type, class, time to live, data length and data.
    pub fn encode(&self) -> (r: Vec<u8>)
        ensures
            r@ == answer_wire(self@),
    {
        proof {
            use_type_invariant(self);
        }
        let mut result: Vec<u8> = self.name.encode();
        push_u16(&mut result, self.atype);
        push_u16(&mut result, self.class);
        push_u32(&mut result, self.ttl);
        push_u16(&mut result, self.data.len() as u16);
        append_bytes(&mut result, self.data.as_slice());
        result
    }
}

} // verus!

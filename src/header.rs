//! The fixed twelve-byte DNS header and its two four-bit codes.
use std::rc::Rc;
use vstd::prelude::*;

use crate::wire::{be16, lemma_be16_round_trip, u16_at};

verus! {

/// The size of the header on the wire, in bytes.
pub const HEADER_LEN: usize = 12;

/// The kind of query carried by a message (four bits on the wire).
#[derive(Clone, Copy, Debug, PartialEq, Eq, Structural)]
pub enum OpCode {
    Query,
    IQuery,
    Status,
    Notify,
    Update,
    DnsStatefulOperations,
    /// A value with no assigned meaning: 3, or 7 to 15.
    Unassigned(u8),
}

/// The outcome of a query (four bits on the wire).
#[derive(Clone, Copy, Debug, PartialEq, Eq, Structural)]
pub enum RCode {
    NoError,
    FormatError,
    ServerError,
    NameError,
    NotImplemented,
    Refused,
    /// A value with no assigned meaning: 6 to 15.
    Unassigned(u8),
}

/// A value that does not fit the four bits of an operation code.
#[derive(Debug)]
pub struct OpCodeParseError {
    pub value: u8,
}

/// A value that does not fit the four bits of a response code.
#[derive(Debug)]
pub struct RCodeParseError {
    pub value: u8,
}

/// The operation code that a four-bit value stands for.
pub open spec fn opcode_of(v: u8) -> OpCode {
    if v == 0 {
        OpCode::Query
    } else if v == 1 {
        OpCode::IQuery
    } else if v == 2 {
        OpCode::Status
    } else if v == 4 {
        OpCode::Notify
    } else if v == 5 {
        OpCode::Update
    } else if v == 6 {
        OpCode::DnsStatefulOperations
    } else {
        OpCode::Unassigned(v)
    }
}

/// The response code that a four-bit value stands for.
pub open spec fn rcode_of(v: u8) -> RCode {
    if v == 0 {
        RCode::NoError
    } else if v == 1 {
        RCode::FormatError
    } else if v == 2 {
        RCode::ServerError
    } else if v == 3 {
        RCode::NameError
    } else if v == 4 {
        RCode::NotImplemented
    } else if v == 5 {
        RCode::Refused
    } else {
        RCode::Unassigned(v)
    }
}

impl OpCode {
    /// The numeric value of the code.
    pub open spec fn spec_value(self) -> u8 {
        match self {
            OpCode::Query => 0,
            OpCode::IQuery => 1,
            OpCode::Status => 2,
            OpCode::Notify => 4,
            OpCode::Update => 5,
            OpCode::DnsStatefulOperations => 6,
            OpCode::Unassigned(v) => v,
        }
    }

    /// A catch-all only holds the values that no named variant stands for.
    pub open spec fn is_valid(self) -> bool {
        match self {
            OpCode::Unassigned(v) => v == 3 || (7 <= v && v <= 15),
            _ => true,
        }
    }

    pub fn value(&self) -> (r: u8)
        ensures
            r == self.spec_value(),
    {
        match self {
            OpCode::Query => 0,
            OpCode::IQuery => 1,
            OpCode::Status => 2,
            OpCode::Notify => 4,
            OpCode::Update => 5,
            OpCode::DnsStatefulOperations => 6,
            OpCode::Unassigned(v) => *v,
        }
    }

    /// Reads a four-bit operation code; larger values are refused.
    pub fn from_value(value: u8) -> (r: Result<OpCode, OpCodeParseError>)
        ensures
            match r {
                Ok(op) => value <= 15 && op == opcode_of(value),
                Err(e) => value > 15 && e.value == value,
            },
    {
        match value {
            0 => Ok(OpCode::Query),
            1 => Ok(OpCode::IQuery),
            2 => Ok(OpCode::Status),
            3 => Ok(OpCode::Unassigned(3)),
            4 => Ok(OpCode::Notify),
            5 => Ok(OpCode::Update),
            6 => Ok(OpCode::DnsStatefulOperations),
            7..=15 => Ok(OpCode::Unassigned(value)),
            _ => Err(OpCodeParseError { value }),
        }
    }
}

impl RCode {
    /// The numeric value of the code.
    pub open spec fn spec_value(self) -> u8 {
        match self {
            RCode::NoError => 0,
            RCode::FormatError => 1,
            RCode::ServerError => 2,
            RCode::NameError => 3,
            RCode::NotImplemented => 4,
            RCode::Refused => 5,
            RCode::Unassigned(v) => v,
        }
    }

    /// A catch-all only holds the values that no named variant stands for.
    pub open spec fn is_valid(self) -> bool {
        match self {
            RCode::Unassigned(v) => 6 <= v && v <= 15,
            _ => true,
        }
    }

    pub fn value(&self) -> (r: u8)
        ensures
            r == self.spec_value(),
    {
        match self {
            RCode::NoError => 0,
            RCode::FormatError => 1,
            RCode::ServerError => 2,
            RCode::NameError => 3,
            RCode::NotImplemented => 4,
            RCode::Refused => 5,
            RCode::Unassigned(v) => *v,
        }
    }

    /// Reads a four-bit response code; larger values are refused.
    pub fn from_value(value: u8) -> (r: Result<RCode, RCodeParseError>)
        ensures
            match r {
                Ok(rc) => value <= 15 && rc == rcode_of(value),
                Err(e) => value > 15 && e.value == value,
            },
    {
        match value {
            0 => Ok(RCode::NoError),
            1 => Ok(RCode::FormatError),
            2 => Ok(RCode::ServerError),
            3 => Ok(RCode::NameError),
            4 => Ok(RCode::NotImplemented),
            5 => Ok(RCode::Refused),
            6..=15 => Ok(RCode::Unassigned(value)),
            _ => Err(RCodeParseError { value }),
        }
    }
}

impl Default for OpCode {
    fn default() -> (r: OpCode)
        ensures
            r == OpCode::Query,
    {
        OpCode::Query
    }
}

impl Default for RCode {
    fn default() -> (r: RCode)
        ensures
            r == RCode::NoError,
    {
        RCode::NoError
    }
}

impl From<&OpCode> for u8 {
    fn from(value: &OpCode) -> (r: u8) {
        value.value()
    }
}

impl vstd::std_specs::convert::FromSpecImpl<&OpCode> for u8 {
    open spec fn obeys_from_spec() -> bool {
        true
    }

    open spec fn from_spec(v: &OpCode) -> u8 {
        v.spec_value()
    }
}

impl From<&RCode> for u8 {
    fn from(value: &RCode) -> (r: u8) {
        value.value()
    }
}

impl vstd::std_specs::convert::FromSpecImpl<&RCode> for u8 {
    open spec fn obeys_from_spec() -> bool {
        true
    }

    open spec fn from_spec(v: &RCode) -> u8 {
        v.spec_value()
    }
}

impl TryFrom<u8> for OpCode {
    type Error = OpCodeParseError;

    fn try_from(value: u8) -> (r: Result<OpCode, OpCodeParseError>) {
        OpCode::from_value(value)
    }
}

impl vstd::std_specs::convert::TryFromSpecImpl<u8> for OpCode {
    open spec fn obeys_try_from_spec() -> bool {
        true
    }

    open spec fn try_from_spec(v: u8) -> Result<OpCode, OpCodeParseError> {
        if v <= 15 {
            Ok(opcode_of(v))
        } else {
            Err(OpCodeParseError { value: v })
        }
    }
}

impl TryFrom<u8> for RCode {
    type Error = RCodeParseError;

    fn try_from(value: u8) -> (r: Result<RCode, RCodeParseError>) {
        RCode::from_value(value)
    }
}

impl vstd::std_specs::convert::TryFromSpecImpl<u8> for RCode {
    open spec fn obeys_try_from_spec() -> bool {
        true
    }

    open spec fn try_from_spec(v: u8) -> Result<RCode, RCodeParseError> {
        if v <= 15 {
            Ok(rcode_of(v))
        } else {
            Err(RCodeParseError { value: v })
        }
    }
}

/// Each four-bit value names a valid code, whose value it is; and a valid code
/// is named by its own value.
pub proof fn lemma_code_values(v: u8, op: OpCode, rc: RCode)
    ensures
        v <= 15 ==> opcode_of(v).is_valid() && opcode_of(v).spec_value() == v,
        v <= 15 ==> rcode_of(v).is_valid() && rcode_of(v).spec_value() == v,
        op.is_valid() ==> op.spec_value() <= 15 && opcode_of(op.spec_value()) == op,
        rc.is_valid() ==> rc.spec_value() <= 15 && rcode_of(rc.spec_value()) == rc,
{
}


/// The header as plain values.
pub struct HeaderView {
    pub id: u16,
    pub qr: bool,
    pub opcode: OpCode,
    pub aa: bool,
    pub tc: bool,
    pub rd: bool,
    pub ra: bool,
    pub z: u8,
    pub rcode: RCode,
    pub qd_count: u16,
    pub an_count: u16,
    pub ns_count: u16,
    pub ar_count: u16,
}

impl HeaderView {
    /// Both codes are valid four-bit values and `z` fits its three bits.
    pub open spec fn is_valid(self) -> bool {
        self.opcode.is_valid() && self.rcode.is_valid() && self.z < 8
    }
}

/// Byte 2 of the header: `qr(1) opcode(4) aa(1) tc(1) rd(1)`.
pub open spec fn flags_hi(h: HeaderView) -> u8 {
    (if h.qr { 0x80u8 } else { 0u8 }) | (h.opcode.spec_value() << 3u8) | (if h.aa {
        0x04u8
    } else {
        0u8
    }) | (if h.tc { 0x02u8 } else { 0u8 }) | (if h.rd { 0x01u8 } else { 0u8 })
}

/// Byte 3 of the header: `ra(1) z(3) rcode(4)`, with `z` always written as zero.
pub open spec fn flags_lo(h: HeaderView) -> u8 {
    (if h.ra { 0x80u8 } else { 0u8 }) | h.rcode.spec_value()
}

/// The twelve bytes that encode a header.
pub open spec fn header_wire(h: HeaderView) -> Seq<u8> {
    be16(h.id) + seq![flags_hi(h), flags_lo(h)] + be16(h.qd_count) + be16(h.an_count) + be16(
        h.ns_count,
    ) + be16(h.ar_count)
}

/// The header that twelve bytes decode to.
pub open spec fn header_from_wire(b: Seq<u8>) -> HeaderView {
    HeaderView {
        id: u16_at(b, 0),
        qr: b[2] & 0x80 == 0x80,
        opcode: opcode_of((b[2] & 0x78) >> 3u8),
        aa: b[2] & 0x04 == 0x04,
        tc: b[2] & 0x02 == 0x02,
        rd: b[2] & 0x01 == 0x01,
        ra: b[3] & 0x80 == 0x80,
        z: (b[3] & 0x70) >> 4u8,
        rcode: rcode_of(b[3] & 0x0F),
        qd_count: u16_at(b, 4),
        an_count: u16_at(b, 6),
        ns_count: u16_at(b, 8),
        ar_count: u16_at(b, 10),
    }
}

/// The fixed header at the start of every DNS message.
#[derive(Debug)]
pub struct Header {
    id: u16,
    qr: bool,
    opcode: Rc<OpCode>,
    aa: bool,
    tc: bool,
    rd: bool,
    ra: bool,
    z: u8,
    rcode: Rc<RCode>,
    qd_count: u16,
    an_count: u16,
    ns_count: u16,
    ar_count: u16,
}

impl View for Header {
    type V = HeaderView;

    closed spec fn view(&self) -> HeaderView {
        HeaderView {
            id: self.id,
            qr: self.qr,
            opcode: *self.opcode,
            aa: self.aa,
            tc: self.tc,
            rd: self.rd,
            ra: self.ra,
            z: self.z,
            rcode: *self.rcode,
            qd_count: self.qd_count,
            an_count: self.an_count,
            ns_count: self.ns_count,
            ar_count: self.ar_count,
        }
    }
}

impl Default for Header {
    /// A query header with every flag clear, both codes zero and no records.
    fn default() -> (r: Header)
        ensures
            r@ == (HeaderView {
                id: 0,
                qr: false,
                opcode: OpCode::Query,
                aa: false,
                tc: false,
                rd: false,
                ra: false,
                z: 0,
                rcode: RCode::NoError,
                qd_count: 0,
                an_count: 0,
                ns_count: 0,
                ar_count: 0,
            }),
    {
        Header {
            id: 0,
            qr: false,
            opcode: Rc::new(OpCode::Query),
            aa: false,
            tc: false,
            rd: false,
            ra: false,
            z: 0,
            rcode: Rc::new(RCode::NoError),
            qd_count: 0,
            an_count: 0,
            ns_count: 0,
            ar_count: 0,
        }
    }
}

impl Header {
    #[verifier::type_invariant]
    spec fn valid(self) -> bool {
        self@.is_valid()
    }

    /// Packet identifier; a response carries the identifier of its query.
    pub fn get_id(&self) -> (r: u16)
        ensures
            r == self@.id,
    {
        self.id
    }

    pub fn set_id(&mut self, id: u16) -> (r: &mut Self)
        ensures
            r@ == (HeaderView { id, ..old(self)@ }),
            final(self)@ == final(r)@,
    {
        proof {
            use_type_invariant(&*self);
        }
        self.id = id;
        self
    }

    /// Query (false) or response (true).
    pub fn get_qr(&self) -> (r: bool)
        ensures
            r == self@.qr,
    {
        self.qr
    }

    pub fn set_qr(&mut self, qr: bool) -> (r: &mut Self)
        ensures
            r@ == (HeaderView { qr: qr, ..old(self)@ }),
            final(self)@ == final(r)@,
    {
        proof {
            use_type_invariant(&*self);
        }
        self.qr = qr;
        self
    }

    /// Operation code, four bits.
    pub fn get_opcode(&self) -> (r: &Rc<OpCode>)
        ensures
            **r == self@.opcode,
            r.is_valid(),
    {
        proof {
            use_type_invariant(self);
        }
        &self.opcode
    }

    pub fn set_opcode(&mut self, opcode: &Rc<OpCode>) -> (r: &mut Self)
        requires
            opcode.is_valid(),
        ensures
            r@ == (HeaderView { opcode: **opcode, ..old(self)@ }),
            final(self)@ == final(r)@,
    {
        proof {
            use_type_invariant(&*self);
        }
        self.opcode = Rc::clone(opcode);
        self
    }

    /// Recursion desired.
    pub fn get_rd(&self) -> (r: bool)
        ensures
            r == self@.rd,
    {
        self.rd
    }

    pub fn set_rd(&mut self, rd: bool) -> (r: &mut Self)
        ensures
            r@ == (HeaderView { rd: rd, ..old(self)@ }),
            final(self)@ == final(r)@,
    {
        proof {
            use_type_invariant(&*self);
        }
        self.rd = rd;
        self
    }

    /// Response code, four bits.
    pub fn get_rcode(&self) -> (r: &Rc<RCode>)
        ensures
            **r == self@.rcode,
            r.is_valid(),
    {
        proof {
            use_type_invariant(self);
        }
        &self.rcode
    }

    pub fn set_rcode(&mut self, rcode: &Rc<RCode>) -> (r: &mut Self)
        requires
            rcode.is_valid(),
        ensures
            r@ == (HeaderView { rcode: **rcode, ..old(self)@ }),
            final(self)@ == final(r)@,
    {
        proof {
            use_type_invariant(&*self);
        }
        self.rcode = Rc::clone(rcode);
        self
    }

    /// Number of records in the question section.
    pub fn get_qd_count(&self) -> (r: u16)
        ensures
            r == self@.qd_count,
    {
        self.qd_count
    }

    pub fn set_qd_count(&mut self, qd_count: u16) -> (r: &mut Self)
        ensures
            r@ == (HeaderView { qd_count: qd_count, ..old(self)@ }),
            final(self)@ == final(r)@,
    {
        proof {
            use_type_invariant(&*self);
        }
        self.qd_count = qd_count;
        self
    }

    /// Number of records in the answer section.
    pub fn get_an_count(&self) -> (r: u16)
        ensures
            r == self@.an_count,
    {
        self.an_count
    }

    pub fn set_an_count(&mut self, an_count: u16) -> (r: &mut Self)
        ensures
            r@ == (HeaderView { an_count: an_count, ..old(self)@ }),
            final(self)@ == final(r)@,
    {
        proof {
            use_type_invariant(&*self);
        }
        self.an_count = an_count;
        self
    }

    /// The twelve bytes of the header on the wire; `z` is written as zero.
    pub fn encode(&self) -> (r: [u8; 12])
        ensures
            r@ == header_wire(self@),
    {
        proof {
            use_type_invariant(self);
        }
        let qr: u8 = if self.qr { 0x80 } else { 0 };
        let opcode: u8 = self.opcode.value() << 3u8;
        let aa: u8 = if self.aa { 0x04 } else { 0 };
        let tc: u8 = if self.tc { 0x02 } else { 0 };
        let rd: u8 = if self.rd { 0x01 } else { 0 };
        let ra: u8 = if self.ra { 0x80 } else { 0 };
        let rcode: u8 = self.rcode.value();
        let r = [
            (self.id / 0x100) as u8,
            (self.id % 0x100) as u8,
            qr | opcode | aa | tc | rd,
            ra | rcode,
            (self.qd_count / 0x100) as u8,
            (self.qd_count % 0x100) as u8,
            (self.an_count / 0x100) as u8,
            (self.an_count % 0x100) as u8,
            (self.ns_count / 0x100) as u8,
            (self.ns_count % 0x100) as u8,
            (self.ar_count / 0x100) as u8,
            (self.ar_count % 0x100) as u8,
        ];
        assert(r@ =~= header_wire(self@));
        r
    }

    /// Decodes the twelve header bytes. Each code is read from four bits, so
    /// the checked conversion of either one cannot fail.
    pub fn parse_from(data: &[u8; 12]) -> (r: Header)
        ensures
            r@ == header_from_wire(data@),
    {
        let flags_hi: u8 = data[2];
        let flags_lo: u8 = data[3];
        let op_bits: u8 = (flags_hi & 0x78) >> 3u8;
        let rc_bits: u8 = flags_lo & 0x0F;
        let z: u8 = (flags_lo & 0x70) >> 4u8;
        assert(op_bits <= 15 && rc_bits <= 15 && z < 8) by (bit_vector)
            requires
                op_bits == (flags_hi & 0x78) >> 3u8,
                rc_bits == flags_lo & 0x0F,
                z == (flags_lo & 0x70) >> 4u8,
        ;
        proof {
            lemma_code_values(op_bits, OpCode::Query, RCode::NoError);
            lemma_code_values(rc_bits, OpCode::Query, RCode::NoError);
        }
        let opcode = match OpCode::from_value(op_bits) {
            Ok(op) => op,
            Err(_) => OpCode::Query,
        };
        let rcode = match RCode::from_value(rc_bits) {
            Ok(rc) => rc,
            Err(_) => RCode::NoError,
        };
        Header {
            id: (data[0] as u16) * 0x100 + data[1] as u16,
            qr: flags_hi & 0x80 == 0x80,
            opcode: Rc::new(opcode),
            aa: flags_hi & 0x04 == 0x04,
            tc: flags_hi & 0x02 == 0x02,
            rd: flags_hi & 0x01 == 0x01,
            ra: flags_lo & 0x80 == 0x80,
            z,
            rcode: Rc::new(rcode),
            qd_count: (data[4] as u16) * 0x100 + data[5] as u16,
            an_count: (data[6] as u16) * 0x100 + data[7] as u16,
            ns_count: (data[8] as u16) * 0x100 + data[9] as u16,
            ar_count: (data[10] as u16) * 0x100 + data[11] as u16,
        }
    }
}

proof fn lemma_flags_round_trip(
    qr: bool,
    op: u8,
    aa: bool,
    tc: bool,
    rd: bool,
    ra: bool,
    rc: u8,
    hi: u8,
    lo: u8,
)
    by (bit_vector)
    requires
        op <= 15,
        rc <= 15,
        hi == (if qr { 0x80u8 } else { 0u8 }) | (op << 3u8) | (if aa { 0x04u8 } else { 0u8 }) | (
        if tc {
            0x02u8
        } else {
            0u8
        }) | (if rd { 0x01u8 } else { 0u8 }),
        lo == (if ra { 0x80u8 } else { 0u8 }) | rc,
    ensures
        (hi & 0x80 == 0x80) == qr,
        (hi & 0x78) >> 3u8 == op,
        (hi & 0x04 == 0x04) == aa,
        (hi & 0x02 == 0x02) == tc,
        (hi & 0x01 == 0x01) == rd,
        (lo & 0x80 == 0x80) == ra,
        (lo & 0x70) >> 4u8 == 0,
        lo & 0x0F == rc,
{
}

/// Decoding the encoding of a valid header whose reserved bits are zero gives
/// the header back.
pub proof fn lemma_header_round_trip(h: HeaderView)
    requires
        h.is_valid(),
        h.z == 0,
    ensures
        header_wire(h).len() == 12,
        header_from_wire(header_wire(h)) == h,
{
    let b = header_wire(h);
    lemma_code_values(0, h.opcode, h.rcode);
    lemma_flags_round_trip(
        h.qr,
        h.opcode.spec_value(),
        h.aa,
        h.tc,
        h.rd,
        h.ra,
        h.rcode.spec_value(),
        b[2],
        b[3],
    );
    assert(b.subrange(0, 2) =~= be16(h.id));
    assert(b.subrange(4, 6) =~= be16(h.qd_count));
    assert(b.subrange(6, 8) =~= be16(h.an_count));
    assert(b.subrange(8, 10) =~= be16(h.ns_count));
    assert(b.subrange(10, 12) =~= be16(h.ar_count));
    lemma_be16_round_trip(h.id, b, 0);
    lemma_be16_round_trip(h.qd_count, b, 4);
    lemma_be16_round_trip(h.an_count, b, 6);
    lemma_be16_round_trip(h.ns_count, b, 8);
    lemma_be16_round_trip(h.ar_count, b, 10);
}

} // verus!

use crate::error::Error;
use crate::utils::{
    be16, be16_bytes, read_1_byte, read_2_bytes, take, u16_from_be, u16_to_be, Cursor,
};
use vstd::prelude::*;

verus! {

/// The fixed twelve-byte section that opens every DNS message.
#[derive(Debug, Clone, Copy, PartialEq, Eq, Structural)]
pub struct Header {
    pub id: TransactionId,
    pub qr: Qr,
    pub opcode: OpCode,
    pub aa: AuthAnswer,
    pub tc: Truncation,
    pub rd: RecursionDesired,
    pub ra: RecursionAvailable,
    pub ad: AuthenticData,
    pub cd: CheckingDisable,
    pub rcode: Rcode,
    pub num_of_qs: u16,
    pub num_of_an: u16,
    pub num_of_authorities: u16,
    pub num_of_additionals: u16,
}

/// A reply header with every flag cleared, no error and empty sections.
pub open spec fn spec_test_header() -> Header {
    Header {
        id: TransactionId(1234),
        qr: Qr::Reply,
        opcode: OpCode::Query,
        aa: AuthAnswer(false),
        tc: Truncation(false),
        rd: RecursionDesired(false),
        ra: RecursionAvailable(false),
        ad: AuthenticData(false),
        cd: CheckingDisable(false),
        rcode: Rcode::NoErr,
        num_of_qs: 0,
        num_of_an: 0,
        num_of_authorities: 0,
        num_of_additionals: 0,
    }
}

/// The reply shell for a query header: id, opcode and recursion-desired are
/// kept; a query is answered without error and any other opcode is refused
/// as not implemented.
pub open spec fn spec_reply_header(h: Header) -> Header {
    Header {
        id: h.id,
        opcode: h.opcode,
        rd: h.rd,
        rcode: if h.opcode == OpCode::Query {
            Rcode::NoErr
        } else {
            Rcode::NotImplemented
        },
        ..spec_test_header()
    }
}

/// The header of the message sent back when a datagram cannot be decoded.
pub open spec fn spec_error_header() -> Header {
    Header { id: TransactionId(0), rcode: Rcode::ServerErr, ..spec_test_header() }
}

/// The header of a query forwarded upstream under transaction id `id`.
pub open spec fn spec_query_header(id: u16) -> Header {
    Header { id: TransactionId(id), qr: Qr::Query, ..spec_test_header() }
}

/// The first flag byte: QR, opcode, AA, TC and RD.
pub open spec fn spec_flags_1st(h: Header) -> u8 {
    h.qr.spec_byte() | h.opcode.spec_byte() | h.aa.spec_byte() | h.tc.spec_byte()
        | h.rd.spec_byte()
}

/// The second flag byte: RA, AD, CD and the response code.
pub open spec fn spec_flags_2nd(h: Header) -> u8 {
    h.ra.spec_byte() | h.ad.spec_byte() | h.cd.spec_byte() | h.rcode.spec_byte()
}

/// The wire form of a header.
pub open spec fn header_wire(h: Header) -> Seq<u8> {
    be16_bytes(h.id.0) + seq![spec_flags_1st(h), spec_flags_2nd(h)] + be16_bytes(h.num_of_qs)
        + be16_bytes(h.num_of_an) + be16_bytes(h.num_of_authorities) + be16_bytes(
        h.num_of_additionals,
    )
}

/// The header that twelve wire bytes hold.
pub open spec fn header_of(w: Seq<u8>) -> Header {
    Header {
        id: TransactionId(be16(w[0], w[1])),
        qr: Qr::spec_from_byte(w[2]),
        opcode: OpCode::spec_from_byte(w[2]),
        aa: AuthAnswer::spec_from_byte(w[2]),
        tc: Truncation::spec_from_byte(w[2]),
        rd: RecursionDesired::spec_from_byte(w[2]),
        ra: RecursionAvailable::spec_from_byte(w[3]),
        ad: AuthenticData::spec_from_byte(w[3]),
        cd: CheckingDisable::spec_from_byte(w[3]),
        rcode: Rcode::spec_from_byte(w[3]),
        num_of_qs: be16(w[4], w[5]),
        num_of_an: be16(w[6], w[7]),
        num_of_authorities: be16(w[8], w[9]),
        num_of_additionals: be16(w[10], w[11]),
    }
}

/// Decoding a header at `p` in `b`: the header and the position after it.
pub open spec fn parse_header(b: Seq<u8>, p: int) -> Result<(Header, int), Error> {
    match take(b, p, 12) {
        Some(w) => Ok((header_of(w), p + 12)),
        None => Err(Error::UnexpectedEnd),
    }
}

impl Header {
    pub fn test() -> (r: Self)
        ensures
            r == spec_test_header(),
    {
        Header {
            id: TransactionId(1234),
            qr: Qr::Reply,
            opcode: OpCode::Query,
            aa: AuthAnswer(false),
            tc: Truncation(false),
            rd: RecursionDesired(false),
            ra: RecursionAvailable(false),
            ad: AuthenticData(false),
            cd: CheckingDisable(false),
            rcode: Rcode::NoErr,
            num_of_qs: 0,
            num_of_an: 0,
            num_of_authorities: 0,
            num_of_additionals: 0,
        }
    }

    /// The reply shell for `header`.
    pub fn copy_from(header: Self) -> (r: Self)
        ensures
            r == spec_reply_header(header),
    {
        let rcode = match header.opcode {
            OpCode::Query => Rcode::NoErr,
            _ => Rcode::NotImplemented,
        };
        Header { id: header.id, opcode: header.opcode, rd: header.rd, rcode, ..Self::test() }
    }

    pub fn error() -> (r: Self)
        ensures
            r == spec_error_header(),
    {
        Header { id: TransactionId(0), rcode: Rcode::ServerErr, ..Self::test() }
    }

    pub fn new_query(id: u16) -> (r: Self)
        ensures
            r == spec_query_header(id),
    {
        Header { id: TransactionId(id), qr: Qr::Query, ..Self::test() }
    }

    pub fn set_qs(self, qs: u16) -> (r: Self)
        ensures
            r == (Header { num_of_qs: qs, ..self }),
    {
        Header { num_of_qs: qs, ..self }
    }

    pub fn set_an(self, an: u16) -> (r: Self)
        ensures
            r == (Header { num_of_an: an, ..self }),
    {
        Header { num_of_an: an, ..self }
    }

    pub fn id(&self) -> (r: TransactionId)
        ensures
            r == self.id,
    {
        self.id
    }

    /// Decodes a header from the cursor.
    pub fn new(r: &mut Cursor) -> (res: Result<Self, Error>)
        ensures
            final(r).buf@ == old(r).buf@,
            match parse_header(old(r).buf@, old(r).pos as int) {
                Ok((h, p)) => res == Ok::<Header, Error>(h) && final(r).pos == p,
                Err(e) => res == Err::<Header, Error>(e),
            },
    {
        let ghost b = r.buf@;
        let ghost start = r.pos as int;
        let bytes = match read_2_bytes(r) {
            Ok(x) => x,
            Err(e) => return Err(e),
        };
        let id = TransactionId(u16_from_be(bytes));
        let flag_1st = match read_1_byte(r) {
            Ok(x) => x,
            Err(e) => return Err(e),
        };
        let flag_2nd = match read_1_byte(r) {
            Ok(x) => x,
            Err(e) => return Err(e),
        };
        let b4 = match read_2_bytes(r) {
            Ok(x) => x,
            Err(e) => return Err(e),
        };
        let b6 = match read_2_bytes(r) {
            Ok(x) => x,
            Err(e) => return Err(e),
        };
        let b8 = match read_2_bytes(r) {
            Ok(x) => x,
            Err(e) => return Err(e),
        };
        let b10 = match read_2_bytes(r) {
            Ok(x) => x,
            Err(e) => return Err(e),
        };
        let h = Header {
            id,
            qr: Qr::from_byte(flag_1st),
            opcode: OpCode::from_byte(flag_1st),
            aa: AuthAnswer::from_byte(flag_1st),
            tc: Truncation::from_byte(flag_1st),
            rd: RecursionDesired::from_byte(flag_1st),
            ra: RecursionAvailable::from_byte(flag_2nd),
            ad: AuthenticData::from_byte(flag_2nd),
            cd: CheckingDisable::from_byte(flag_2nd),
            rcode: Rcode::from_byte(flag_2nd),
            num_of_qs: u16_from_be(b4),
            num_of_an: u16_from_be(b6),
            num_of_authorities: u16_from_be(b8),
            num_of_additionals: u16_from_be(b10),
        };
        proof {
            let w = b.subrange(start, start + 12);
            assert(w =~= bytes@ + seq![flag_1st, flag_2nd] + b4@ + b6@ + b8@ + b10@);
            assert(w[0] == bytes[0] && w[1] == bytes[1]);
            assert(w[4] == b4[0] && w[5] == b4[1] && w[6] == b6[0] && w[7] == b6[1]);
            assert(w[8] == b8[0] && w[9] == b8[1] && w[10] == b10[0] && w[11] == b10[1]);
            assert(h == header_of(w));
        }
        Ok(h)
    }

    pub fn num_of_qs(&self) -> (r: u16)
        ensures
            r == self.num_of_qs,
    {
        self.num_of_qs
    }

    pub fn num_of_an(&self) -> (r: u16)
        ensures
            r == self.num_of_an,
    {
        self.num_of_an
    }

    /// The twelve wire bytes of this header.
    pub fn as_bytes(&self) -> (r: [u8; 12])
        ensures
            r@ == header_wire(*self),
    {
        let id = self.id.as_bytes();
        let b2 = flag_byte_1st_half(&self.qr, &self.opcode, &self.aa, &self.tc, &self.rd);
        let b3 = flag_byte_2nd_half(&self.ra, &self.ad, &self.cd, &self.rcode);
        let qs = u16_to_be(self.num_of_qs);
        let an = u16_to_be(self.num_of_an);
        let ns = u16_to_be(self.num_of_authorities);
        let ar = u16_to_be(self.num_of_additionals);
        let r = [id[0], id[1], b2, b3, qs[0], qs[1], an[0], an[1], ns[0], ns[1], ar[0], ar[1]];
        assert(r@ =~= header_wire(*self));
        r
    }
}

/// The identifier that pairs a reply with its query.
#[derive(Debug, Clone, Copy, PartialEq, Eq, Structural)]
pub struct TransactionId(pub u16);

impl TransactionId {
    fn as_bytes(&self) -> (r: [u8; 2])
        ensures
            r@ == be16_bytes(self.0),
    {
        u16_to_be(self.0)
    }

    pub fn as_u16(&self) -> (r: u16)
        ensures
            r == self.0,
    {
        self.0
    }
}

/// Whether a message is a query or a reply.
#[derive(Debug, Clone, Copy, PartialEq, Eq, Structural)]
pub enum Qr {
    Query,
    Reply,
}

impl Qr {
    pub open spec fn spec_byte(&self) -> u8 {
        match self {
            Qr::Query => 0b0000_0000,
            Qr::Reply => 0b1000_0000,
        }
    }

    pub open spec fn spec_from_byte(byte: u8) -> Qr {
        if byte & 0b1000_0000 == 0b1000_0000 {
            Qr::Reply
        } else {
            Qr::Query
        }
    }

    fn as_byte(&self) -> (r: u8)
        ensures
            r == self.spec_byte(),
    {
        match self {
            Qr::Query => 0b0000_0000,
            Qr::Reply => 0b1000_0000,
        }
    }

    fn from_byte(byte: u8) -> (r: Self)
        ensures
            r == Self::spec_from_byte(byte),
    {
        if bit_flag(0b1000_0000, byte) {
            Qr::Reply
        } else {
            Qr::Query
        }
    }
}

/// The kind of query; any bit pattern other than the three known ones is kept
/// as it was found in the opcode field.
#[derive(Debug, Clone, Copy, PartialEq, Eq, Structural)]
pub enum OpCode {
    Query,
    Iquery,
    Status,
    Unknown(u8),
}

impl OpCode {
    pub open spec fn spec_byte(&self) -> u8 {
        match self {
            OpCode::Query => 0b0000_0000,
            OpCode::Iquery => 0b0000_1000,
            OpCode::Status => 0b0001_0000,
            OpCode::Unknown(bits) => *bits,
        }
    }

    pub open spec fn spec_from_byte(byte: u8) -> OpCode {
        let bits = byte & 0b0111_1000;
        if bits == 0b0000_0000 {
            OpCode::Query
        } else if bits == 0b0000_1000 {
            OpCode::Iquery
        } else if bits == 0b0001_0000 {
            OpCode::Status
        } else {
            OpCode::Unknown(bits)
        }
    }

    fn as_byte(&self) -> (r: u8)
        ensures
            r == self.spec_byte(),
    {
        match self {
            OpCode::Query => 0b0000_0000,
            OpCode::Iquery => 0b0000_1000,
            OpCode::Status => 0b0001_0000,
            OpCode::Unknown(bits) => *bits,
        }
    }

    fn from_byte(byte: u8) -> (r: Self)
        ensures
            r == Self::spec_from_byte(byte),
    {
        let bits = byte & 0b0111_1000;
        match bits {
            0b0000_0000 => OpCode::Query,
            0b0000_1000 => OpCode::Iquery,
            0b0001_0000 => OpCode::Status,
            _ => OpCode::Unknown(bits),
        }
    }
}

/// The response code; codes above four read as not implemented.
#[derive(Debug, Clone, Copy, PartialEq, Eq, Structural)]
pub enum Rcode {
    NoErr,
    FormatErr,
    ServerErr,
    NonexistentDomain,
    NotImplemented,
}

impl Rcode {
    pub open spec fn spec_byte(&self) -> u8 {
        match self {
            Rcode::NoErr => 0,
            Rcode::FormatErr => 1,
            Rcode::ServerErr => 2,
            Rcode::NonexistentDomain => 3,
            Rcode::NotImplemented => 4,
        }
    }

    pub open spec fn spec_from_byte(byte: u8) -> Rcode {
        let code = byte & 0b0000_1111;
        if code == 0 {
            Rcode::NoErr
        } else if code == 1 {
            Rcode::FormatErr
        } else if code == 2 {
            Rcode::ServerErr
        } else if code == 3 {
            Rcode::NonexistentDomain
        } else {
            Rcode::NotImplemented
        }
    }

    fn as_byte(&self) -> (r: u8)
        ensures
            r == self.spec_byte(),
    {
        match self {
            Rcode::NoErr => 0b0000_0000,
            Rcode::FormatErr => 0b0000_0001,
            Rcode::ServerErr => 0b0000_0010,
            Rcode::NonexistentDomain => 0b0000_0011,
            Rcode::NotImplemented => 0b0000_0100,
        }
    }

    fn from_byte(byte: u8) -> (r: Self)
        ensures
            r == Self::spec_from_byte(byte),
    {
        match byte & 0b0000_1111 {
            0b0000_0000 => Rcode::NoErr,
            0b0000_0001 => Rcode::FormatErr,
            0b0000_0010 => Rcode::ServerErr,
            0b0000_0011 => Rcode::NonexistentDomain,
            _ => Rcode::NotImplemented,
        }
    }
}

/// Authoritative answer (AA): the responding server owns the queried domain.
#[derive(Debug, Clone, Copy, PartialEq, Eq, Structural)]
pub struct AuthAnswer(pub bool);

impl AuthAnswer {
    pub open spec fn spec_byte(&self) -> u8 {
        if self.0 { 0b0000_0100 } else { 0 }
    }

    pub open spec fn spec_from_byte(byte: u8) -> AuthAnswer {
        AuthAnswer(byte & 0b0000_0100 == 0b0000_0100)
    }

    fn as_byte(&self) -> (r: u8)
        ensures
            r == self.spec_byte(),
    {
        if self.0 {
            0b0000_0100
        } else {
            0b0000_0000
        }
    }

    fn from_byte(byte: u8) -> (r: Self)
        ensures
            r == Self::spec_from_byte(byte),
    {
        AuthAnswer(bit_flag(0b0000_0100, byte))
    }
}

/// Truncation (TC): the message did not fit in one datagram.
#[derive(Debug, Clone, Copy, PartialEq, Eq, Structural)]
pub struct Truncation(pub bool);

impl Truncation {
    pub open spec fn spec_byte(&self) -> u8 {
        if self.0 { 0b0000_0010 } else { 0 }
    }

    pub open spec fn spec_from_byte(byte: u8) -> Truncation {
        Truncation(byte & 0b0000_0010 == 0b0000_0010)
    }

    fn as_byte(&self) -> (r: u8)
        ensures
            r == self.spec_byte(),
    {
        if self.0 {
            0b0000_0010
        } else {
            0b0000_0000
        }
    }

    fn from_byte(byte: u8) -> (r: Self)
        ensures
            r == Self::spec_from_byte(byte),
    {
        Truncation(bit_flag(0b0000_0010, byte))
    }
}

/// Recursion desired (RD): the sender asks the server to resolve recursively.
#[derive(Debug, Clone, Copy, PartialEq, Eq, Structural)]
pub struct RecursionDesired(pub bool);

impl RecursionDesired {
    pub open spec fn spec_byte(&self) -> u8 {
        if self.0 { 0b0000_0001 } else { 0 }
    }

    pub open spec fn spec_from_byte(byte: u8) -> RecursionDesired {
        RecursionDesired(byte & 0b0000_0001 == 0b0000_0001)
    }

    fn as_byte(&self) -> (r: u8)
        ensures
            r == self.spec_byte(),
    {
        if self.0 {
            0b0000_0001
        } else {
            0b0000_0000
        }
    }

    fn from_byte(byte: u8) -> (r: Self)
        ensures
            r == Self::spec_from_byte(byte),
    {
        RecursionDesired(bit_flag(0b0000_0001, byte))
    }
}

/// Recursion available (RA): the server offers recursive resolution.
#[derive(Debug, Clone, Copy, PartialEq, Eq, Structural)]
pub struct RecursionAvailable(pub bool);

impl RecursionAvailable {
    pub open spec fn spec_byte(&self) -> u8 {
        if self.0 { 0b1000_0000 } else { 0 }
    }

    pub open spec fn spec_from_byte(byte: u8) -> RecursionAvailable {
        RecursionAvailable(byte & 0b1000_0000 == 0b1000_0000)
    }

    fn as_byte(&self) -> (r: u8)
        ensures
            r == self.spec_byte(),
    {
        if self.0 {
            0b1000_0000
        } else {
            0b0000_0000
        }
    }

    fn from_byte(byte: u8) -> (r: Self)
        ensures
            r == Self::spec_from_byte(byte),
    {
        RecursionAvailable(bit_flag(0b1000_0000, byte))
    }
}

/// Authentic data (AD): in a reply, the server verified the data.
#[derive(Debug, Clone, Copy, PartialEq, Eq, Structural)]
pub struct AuthenticData(pub bool);

impl AuthenticData {
    pub open spec fn spec_byte(&self) -> u8 {
        if self.0 { 0b0010_0000 } else { 0 }
    }

    pub open spec fn spec_from_byte(byte: u8) -> AuthenticData {
        AuthenticData(byte & 0b0010_0000 == 0b0010_0000)
    }

    fn as_byte(&self) -> (r: u8)
        ensures
            r == self.spec_byte(),
    {
        if self.0 {
            0b0010_0000
        } else {
            0b0000_0000
        }
    }

    fn from_byte(byte: u8) -> (r: Self)
        ensures
            r == Self::spec_from_byte(byte),
    {
        AuthenticData(bit_flag(0b0010_0000, byte))
    }
}

/// Checking disabled (CD): in a query, unverified data is acceptable.
#[derive(Debug, Clone, Copy, PartialEq, Eq, Structural)]
pub struct CheckingDisable(pub bool);

impl CheckingDisable {
    pub open spec fn spec_byte(&self) -> u8 {
        if self.0 { 0b0001_0000 } else { 0 }
    }

    pub open spec fn spec_from_byte(byte: u8) -> CheckingDisable {
        CheckingDisable(byte & 0b0001_0000 == 0b0001_0000)
    }

    fn as_byte(&self) -> (r: u8)
        ensures
            r == self.spec_byte(),
    {
        if self.0 {
            0b0001_0000
        } else {
            0b0000_0000
        }
    }

    fn from_byte(byte: u8) -> (r: Self)
        ensures
            r == Self::spec_from_byte(byte),
    {
        CheckingDisable(bit_flag(0b0001_0000, byte))
    }
}

fn flag_byte_1st_half(
    qr: &Qr,
    opcode: &OpCode,
    aa: &AuthAnswer,
    tc: &Truncation,
    rd: &RecursionDesired,
) -> (r: u8)
    ensures
        r == qr.spec_byte() | opcode.spec_byte() | aa.spec_byte() | tc.spec_byte()
            | rd.spec_byte(),
{
    qr.as_byte() | opcode.as_byte() | aa.as_byte() | tc.as_byte() | rd.as_byte()
}

fn flag_byte_2nd_half(
    ra: &RecursionAvailable,
    ad: &AuthenticData,
    cd: &CheckingDisable,
    rcode: &Rcode,
) -> (r: u8)
    ensures
        r == ra.spec_byte() | ad.spec_byte() | cd.spec_byte() | rcode.spec_byte(),
{
    ra.as_byte() | ad.as_byte() | cd.as_byte() | rcode.as_byte()
}

/// Whether every bit of `mask` is set in `byte`.
fn bit_flag(mask: u8, byte: u8) -> (r: bool)
    ensures
        r == (byte & mask == mask),
{
    byte & mask == mask
}

} // verus!

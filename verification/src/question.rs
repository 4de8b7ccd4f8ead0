//! Question codec: one question entry, its name followed by the query type
//! and the query class, each a validated 16-bit big-endian field.

use vstd::prelude::*;

use crate::domain_name::{name_wire, spec_parse_name, valid_name, DomainName};
use crate::wire::{be16, DeserializationError, Field};

verus! {

/// A resource-record (and question) type this codec recognizes. Only A and
/// CName bodies are decoded; the others are recognized type codes whose
/// bodies are out of this codec's scope.
#[derive(Clone, Copy, Debug, PartialEq, Eq, Structural)]
pub enum Type {
    A,
    NameServer,
    CName,
    SOA,
    WKS,
    PTR,
    MailExchange,
}

/// A record class this codec recognizes.
#[derive(Clone, Copy, Debug, PartialEq, Eq, Structural)]
pub enum Class {
    Internet,
    Chaos,
}

pub open spec fn type_code(t: Type) -> u16 {
    match t {
        Type::A => 1,
        Type::NameServer => 2,
        Type::CName => 5,
        Type::SOA => 6,
        Type::WKS => 11,
        Type::PTR => 12,
        Type::MailExchange => 15,
    }
}

/// The type a numeric value stands for, if any.
pub open spec fn spec_type_from(value: u16) -> Option<Type> {
    if value == 1 {
        Some(Type::A)
    } else if value == 2 {
        Some(Type::NameServer)
    } else if value == 5 {
        Some(Type::CName)
    } else if value == 6 {
        Some(Type::SOA)
    } else if value == 11 {
        Some(Type::WKS)
    } else if value == 12 {
        Some(Type::PTR)
    } else if value == 15 {
        Some(Type::MailExchange)
    } else {
        None
    }
}

pub open spec fn class_code(c: Class) -> u16 {
    match c {
        Class::Internet => 1,
        Class::Chaos => 3,
    }
}

/// The class a numeric value stands for, if any.
pub open spec fn spec_class_from(value: u16) -> Option<Class> {
    if value == 1 {
        Some(Class::Internet)
    } else if value == 3 {
        Some(Class::Chaos)
    } else {
        None
    }
}

impl Type {
    /// The numeric code of this type.
    pub fn code(&self) -> (r: u16)
        ensures
            r == type_code(*self),
    {
        match self {
            Type::A => 1,
            Type::NameServer => 2,
            Type::CName => 5,
            Type::SOA => 6,
            Type::WKS => 11,
            Type::PTR => 12,
            Type::MailExchange => 15,
        }
    }

    /// The type a numeric value stands for; any value outside the codec's
    /// set is invalid data naming the type field.
    pub fn try_from_u16(value: u16) -> (r: Result<Type, DeserializationError>)
        ensures
            match r {
                Ok(t) => spec_type_from(value) == Some(t),
                Err(e) => spec_type_from(value) is None && e == DeserializationError::InvalidData(
                    Field::Type,
                    value,
                ),
            },
    {
        match value {
            1 => Ok(Type::A),
            2 => Ok(Type::NameServer),
            5 => Ok(Type::CName),
            6 => Ok(Type::SOA),
            11 => Ok(Type::WKS),
            12 => Ok(Type::PTR),
            15 => Ok(Type::MailExchange),
            _ => Err(DeserializationError::InvalidData(Field::Type, value)),
        }
    }
}

impl Class {
    /// The numeric code of this class.
    pub fn code(&self) -> (r: u16)
        ensures
            r == class_code(*self),
    {
        match self {
            Class::Internet => 1,
            Class::Chaos => 3,
        }
    }

    /// The class a numeric value stands for; any value outside the codec's
    /// set is invalid data naming the class field.
    pub fn try_from_u16(value: u16) -> (r: Result<Class, DeserializationError>)
        ensures
            match r {
                Ok(c) => spec_class_from(value) == Some(c),
                Err(e) => spec_class_from(value) is None && e == DeserializationError::InvalidData(
                    Field::Class,
                    value,
                ),
            },
    {
        match value {
            1 => Ok(Class::Internet),
            3 => Ok(Class::Chaos),
            _ => Err(DeserializationError::InvalidData(Field::Class, value)),
        }
    }
}

/// The logical content of a question: its name's text and the two codes.
#[verifier::ext_equal]
pub struct QuestionV {
    pub qname: Seq<u8>,
    pub qtype: Type,
    pub qclass: Class,
}

/// One question entry: a name, a query type and a query class.
#[derive(Debug)]
pub struct Question {
    pub qname: DomainName,
    pub qtype: Type,
    pub qclass: Class,
}

impl View for Question {
    type V = QuestionV;

    open spec fn view(&self) -> QuestionV {
        QuestionV { qname: self.qname@, qtype: self.qtype, qclass: self.qclass }
    }
}

/// The wire form of a question: the name's wire form, then the type and the
/// class, each 2 bytes big-endian.
pub open spec fn question_wire(q: QuestionV) -> Seq<u8> {
    name_wire(q.qname) + seq![
        (type_code(q.qtype) / 256) as u8,
        (type_code(q.qtype) % 256) as u8,
        (class_code(q.qclass) / 256) as u8,
        (class_code(q.qclass) % 256) as u8,
    ]
}

/// What decoding a question yields.
#[verifier::ext_equal]
pub struct QuestionParse {
    pub question: QuestionV,
    pub consumed: int,
}

/// What decoding a question at `pos` yields: a name, then a type and a class
/// that both must belong to the codec's sets.
pub open spec fn spec_parse_question(buf: Seq<u8>, pos: int) -> Result<
    QuestionParse,
    DeserializationError,
> {
    match spec_parse_name(buf, pos) {
        Ok(p) => {
            let pos2 = pos + p.consumed;
            if pos2 + 2 > buf.len() {
                Err(DeserializationError::BufferOverflow)
            } else {
                let tv = be16(buf[pos2], buf[pos2 + 1]);
                match spec_type_from(tv) {
                    Some(qtype) => {
                        if pos2 + 4 > buf.len() {
                            Err(DeserializationError::BufferOverflow)
                        } else {
                            let cv = be16(buf[pos2 + 2], buf[pos2 + 3]);
                            match spec_class_from(cv) {
                                Some(qclass) => Ok(
                                    QuestionParse {
                                        question: QuestionV { qname: p.text, qtype, qclass },
                                        consumed: p.consumed + 4,
                                    },
                                ),
                                None => Err(DeserializationError::InvalidData(Field::Class, cv)),
                            }
                        }
                    },
                    None => Err(DeserializationError::InvalidData(Field::Type, tv)),
                }
            }
        },
        Err(e) => Err(e),
    }
}

impl Question {
    /// A question made of the given parts.
    pub fn new(qname: DomainName, qtype: Type, qclass: Class) -> (r: Question)
        ensures
            r@ == (QuestionV { qname: qname@, qtype, qclass }),
    {
        Question { qname, qtype, qclass }
    }

    /// The question an outbound query carries: an A-record lookup for the
    /// given name in the Internet class.
    pub fn new_from_domain_name(qname: DomainName) -> (r: Question)
        ensures
            r@ == (QuestionV { qname: qname@, qtype: Type::A, qclass: Class::Internet }),
    {
        Question { qname, qtype: Type::A, qclass: Class::Internet }
    }

    /// Encodes the question: its name's wire form, then type and class.
    pub fn serialize(&self) -> (out: Vec<u8>)
        ensures
            out@ == question_wire(self@),
    {
        let mut out = self.qname.serialize();
        let tv = self.qtype.code();
        out.push((tv / 256) as u8);
        out.push((tv % 256) as u8);
        let cv = self.qclass.code();
        out.push((cv / 256) as u8);
        out.push((cv % 256) as u8);
        proof {
            assert(out@ =~= question_wire(self@));
        }
        out
    }

    /// Decodes a question at `offset`: the name advances the cursor, then
    /// the two 16-bit codes are read and checked against the codec's sets.
    pub fn deserialize(bytes: &[u8], offset: usize) -> (r: Result<
        (usize, Question),
        DeserializationError,
    >)
        ensures
            match r {
                Ok((n, q)) => spec_parse_question(bytes@, offset as int) == Ok::<
                    QuestionParse,
                    DeserializationError,
                >(QuestionParse { question: q@, consumed: n as int }) && offset + n
                    <= bytes@.len(),
                Err(e) => spec_parse_question(bytes@, offset as int) == Err::<
                    QuestionParse,
                    DeserializationError,
                >(e),
            },
    {
        let n_total = bytes.len();
        let (name_len, qname) = match DomainName::deserialize(bytes, offset) {
            Ok(p) => p,
            Err(e) => {
                return Err(e);
            },
        };
        let pos2 = offset + name_len;
        let (_, tv) = match crate::wire::read_u16(bytes, pos2) {
            Ok(p) => p,
            Err(e) => {
                return Err(e);
            },
        };
        let qtype = match Type::try_from_u16(tv) {
            Ok(t) => t,
            Err(e) => {
                return Err(e);
            },
        };
        let (_, cv) = match crate::wire::read_u16(bytes, pos2 + 2) {
            Ok(p) => p,
            Err(e) => {
                return Err(e);
            },
        };
        let qclass = match Class::try_from_u16(cv) {
            Ok(c) => c,
            Err(e) => {
                return Err(e);
            },
        };
        Ok((name_len + 4, Question { qname, qtype, qclass }))
    }
}

/// A buffer that holds the wire form of a question over a grammar-valid name
/// decodes to exactly that question, consuming exactly the wire form's
/// length.
pub proof fn lemma_question_wire_parse(buf: Seq<u8>, pos: int, q: QuestionV)
    requires
        valid_name(q.qname),
        q.qname.len() >= 1,
        0 <= pos,
        pos + question_wire(q).len() <= buf.len(),
        buf.subrange(pos, pos + question_wire(q).len()) == question_wire(q),
    ensures
        spec_parse_question(buf, pos) == Ok::<QuestionParse, DeserializationError>(
            QuestionParse { question: q, consumed: question_wire(q).len() as int },
        ),
{
    let qw = question_wire(q);
    let nw = name_wire(q.qname);
    assert(forall|i: int| 0 <= i < qw.len() ==> #[trigger] buf[pos + i] == qw[i]) by {
        assert(forall|i: int|
            0 <= i < qw.len() ==> #[trigger] buf.subrange(pos, pos + qw.len() as int)[i] == buf[pos
                + i]);
    }
    assert(buf.subrange(pos, pos + nw.len() as int) =~= nw);
    crate::domain_name::lemma_name_wire_parse(buf, pos, q.qname);
    let k = nw.len() as int;
    let pos2 = pos + k;
    assert(buf[pos + k] == qw[k] && buf[pos + (k + 1)] == qw[k + 1] && buf[pos + (k + 2)] == qw[k
        + 2] && buf[pos + (k + 3)] == qw[k + 3]);
    assert(buf[pos2] == qw[k] && buf[pos2 + 1] == qw[k + 1] && buf[pos2 + 2] == qw[k + 2] && buf[
        pos2 + 3] == qw[k + 3]);
    let tv = be16(buf[pos2], buf[pos2 + 1]);
    let cv = be16(buf[pos2 + 2], buf[pos2 + 3]);
    assert(qw[k] == (type_code(q.qtype) / 256) as u8);
    assert(qw[k + 1] == (type_code(q.qtype) % 256) as u8);
    assert(tv == type_code(q.qtype));
    assert(cv == class_code(q.qclass));
    assert(spec_type_from(tv) == Some(q.qtype));
    assert(spec_class_from(cv) == Some(q.qclass));
    assert(QuestionParse {
        question: QuestionV { qname: q.qname, qtype: q.qtype, qclass: q.qclass },
        consumed: nw.len() as int + 4,
    } =~= QuestionParse { question: q, consumed: qw.len() as int });
}

} // verus!

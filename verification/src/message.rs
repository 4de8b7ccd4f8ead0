//! Message assembler: composes the header, the question and the answer
//! records into one message, sharing a single running cursor so that later
//! records' compression pointers can reference any earlier byte of the
//! buffer. Encoding emits a record-free query (header and question only);
//! decoding reads the answer section driven strictly by the header's answer
//! count, and leaves the authority and additional sections out of scope.

use vstd::prelude::*;

use crate::domain_name::{valid_name, DomainName};
use crate::header::{
    header_wire, spec_parse_header, spec_standard_query_header, Header,
};
use crate::question::{
    question_wire, spec_parse_question, Class, Question, QuestionParse, QuestionV, Type,
};
use crate::resource_record::{spec_parse_record, RecordV, ResourceRecord};
use crate::wire::DeserializationError;

verus! {

/// The record views of a record sequence.
pub open spec fn records_view(s: Seq<ResourceRecord>) -> Seq<RecordV> {
    s.map_values(|rr: ResourceRecord| rr@)
}

/// The logical content of a message.
#[verifier::ext_equal]
pub struct MessageV {
    pub header: Header,
    pub question: QuestionV,
    pub answers: Option<Seq<RecordV>>,
    pub authorities: Option<Seq<RecordV>>,
    pub additional: Option<Seq<RecordV>>,
}

/// A whole message: header, one question, and answers present exactly when
/// the header counts any. The authority and additional sections are out of
/// this codec's scope and stay absent.
#[derive(Debug)]
pub struct DNSMessage {
    pub header: Header,
    pub question: Question,
    pub answers: Option<Vec<ResourceRecord>>,
    pub authorities: Option<Vec<ResourceRecord>>,
    pub additional: Option<Vec<ResourceRecord>>,
}

impl View for DNSMessage {
    type V = MessageV;

    open spec fn view(&self) -> MessageV {
        MessageV {
            header: self.header,
            question: self.question@,
            answers: match self.answers {
                Some(v) => Some(records_view(v@)),
                None => None,
            },
            authorities: match self.authorities {
                Some(v) => Some(records_view(v@)),
                None => None,
            },
            additional: match self.additional {
                Some(v) => Some(records_view(v@)),
                None => None,
            },
        }
    }
}

/// The wire form of a record-free message: its header then its question.
pub open spec fn message_wire(h: Header, q: QuestionV) -> Seq<u8> {
    header_wire(h) + question_wire(q)
}

/// What decoding a run of records yields.
#[verifier::ext_equal]
pub struct AnswersParse {
    pub records: Seq<RecordV>,
    pub consumed: int,
}

/// What decoding `n` consecutive records at `pos` yields, each advancing the
/// shared cursor: the records in order, or the first error met.
pub open spec fn spec_parse_answers(buf: Seq<u8>, pos: int, n: int) -> Result<
    AnswersParse,
    DeserializationError,
>
    decreases n,
{
    if n <= 0 {
        Ok(AnswersParse { records: Seq::empty(), consumed: 0 })
    } else {
        match spec_parse_record(buf, pos) {
            Ok((rv, rn)) => match spec_parse_answers(buf, pos + rn, n - 1) {
                Ok(ap) => Ok(
                    AnswersParse { records: seq![rv] + ap.records, consumed: rn + ap.consumed },
                ),
                Err(e) => Err(e),
            },
            Err(e) => Err(e),
        }
    }
}

/// What decoding a message yields.
#[verifier::ext_equal]
pub struct MessageParse {
    pub message: MessageV,
    pub consumed: int,
}

/// What decoding a message at `pos` yields: the header, the question right
/// after the fixed 12 header bytes, then exactly as many answer records as
/// the header counts (none decoded, and the section absent, when it counts
/// zero); the first error met propagates unchanged.
pub open spec fn spec_parse_message(buf: Seq<u8>, pos: int) -> Result<
    MessageParse,
    DeserializationError,
> {
    match spec_parse_header(buf, pos) {
        Ok(h) => match spec_parse_question(buf, pos + 12) {
            Ok(qp) => {
                if h.ancount == 0 {
                    Ok(
                        MessageParse {
                            message: MessageV {
                                header: h,
                                question: qp.question,
                                answers: None,
                                authorities: None,
                                additional: None,
                            },
                            consumed: 12 + qp.consumed,
                        },
                    )
                } else {
                    match spec_parse_answers(buf, pos + 12 + qp.consumed, h.ancount as int) {
                        Ok(ap) => Ok(
                            MessageParse {
                                message: MessageV {
                                    header: h,
                                    question: qp.question,
                                    answers: Some(ap.records),
                                    authorities: None,
                                    additional: None,
                                },
                                consumed: 12 + qp.consumed + ap.consumed,
                            },
                        ),
                        Err(e) => Err(e),
                    }
                }
            },
            Err(e) => Err(e),
        },
        Err(e) => Err(e),
    }
}

/// Decoding `n` records yields exactly `n` records.
pub proof fn lemma_parse_answers_count(buf: Seq<u8>, pos: int, n: int)
    ensures
        match spec_parse_answers(buf, pos, n) {
            Ok(ap) => ap.records.len() == if n <= 0 {
                0
            } else {
                n
            },
            Err(_) => true,
        },
    decreases n,
{
    if n > 0 {
        match spec_parse_record(buf, pos) {
            Ok((rv, rn)) => {
                lemma_parse_answers_count(buf, pos + rn, n - 1);
            },
            Err(_) => {},
        }
    }
}

/// Relies on rand::random: a fresh pseudorandom 16-bit message id; nothing
/// is assumed about which value comes back.
#[verifier::external_body]
fn random_u16() -> u16 {
    rand::random::<u16>()
}

impl DNSMessage {
    /// A message made of the given parts.
    pub fn new_from_components(
        header: Header,
        question: Question,
        answers: Option<Vec<ResourceRecord>>,
        authorities: Option<Vec<ResourceRecord>>,
        additional: Option<Vec<ResourceRecord>>,
    ) -> (r: DNSMessage)
        ensures
            r.header == header,
            r.question@ == question@,
            r@.answers == match answers {
                Some(v) => Some(records_view(v@)),
                None => None::<Seq<RecordV>>,
            },
            r@.authorities == match authorities {
                Some(v) => Some(records_view(v@)),
                None => None::<Seq<RecordV>>,
            },
            r@.additional == match additional {
                Some(v) => Some(records_view(v@)),
                None => None::<Seq<RecordV>>,
            },
    {
        DNSMessage { header, question, answers, authorities, additional }
    }

    /// An outbound standard query for the given name and message id: an
    /// A-record question in the Internet class under a standard-query
    /// header, with no record sections. The id is a parameter so a caller
    /// (or a test) may supply a fixed one.
    pub fn new_query_from_hostname_with_id(hostname: DomainName, id: u16) -> (r: DNSMessage)
        ensures
            r.header == spec_standard_query_header(id),
            r@.question == (QuestionV {
                qname: hostname@,
                qtype: Type::A,
                qclass: Class::Internet,
            }),
            r.answers is None && r.authorities is None && r.additional is None,
    {
        DNSMessage {
            header: Header::standard_query_from_id(id),
            question: Question::new_from_domain_name(hostname),
            answers: None,
            authorities: None,
            additional: None,
        }
    }

    /// An outbound standard query for the given name under a fresh random
    /// id: whatever id came back, everything else is the standard-query
    /// shape.
    pub fn new_query_from_hostname(hostname: DomainName) -> (r: DNSMessage)
        ensures
            r.header == spec_standard_query_header(r.header.id),
            r@.question == (QuestionV {
                qname: hostname@,
                qtype: Type::A,
                qclass: Class::Internet,
            }),
            r.answers is None && r.authorities is None && r.additional is None,
    {
        let id = random_u16();
        DNSMessage::new_query_from_hostname_with_id(hostname, id)
    }

    /// Encodes the message as a record-free query: the header's 12 bytes,
    /// then the question (record-section encoding is out of this codec's
    /// scope: it only emits queries, which carry none).
    pub fn serialize(&self) -> (out: Vec<u8>)
        ensures
            out@ == message_wire(self.header, self.question@),
    {
        let mut out = self.header.serialize();
        let mut q = self.question.serialize();
        out.append(&mut q);
        out
    }

    /// Decodes a message at `offset`: the header, the question at the fixed
    /// offset 12 past it, then exactly as many answer records as the header
    /// counts, all advancing one shared cursor. Authority and additional
    /// sections are not decoded.
    pub fn deserialize(bytes: &[u8], offset: usize) -> (r: Result<
        (usize, DNSMessage),
        DeserializationError,
    >)
        ensures
            match r {
                Ok((n, m)) => spec_parse_message(bytes@, offset as int) == Ok::<
                    MessageParse,
                    DeserializationError,
                >(MessageParse { message: m@, consumed: n as int }) && offset + n <= bytes@.len()
                    && (m@.answers matches Some(rs) ==> rs.len() == m.header.ancount),
                Err(e) => spec_parse_message(bytes@, offset as int) == Err::<
                    MessageParse,
                    DeserializationError,
                >(e),
            },
    {
        let n_total = bytes.len();
        let (_, header) = match Header::deserialize(bytes, offset) {
            Ok(p) => p,
            Err(e) => {
                return Err(e);
            },
        };
        let (qn, question) = match Question::deserialize(bytes, offset + 12) {
            Ok(p) => p,
            Err(e) => {
                return Err(e);
            },
        };
        let ans_start = offset + 12 + qn;
        if header.ancount == 0 {
            return Ok(
                (
                    12 + qn,
                    DNSMessage {
                        header,
                        question,
                        answers: None,
                        authorities: None,
                        additional: None,
                    },
                ),
            );
        }
        let mut answers: Vec<ResourceRecord> = Vec::new();
        let mut cur: usize = ans_start;
        let mut k: u16 = 0;
        proof {
            assert(records_view(answers@) =~= Seq::<RecordV>::empty());
        }
        while k < header.ancount
            invariant
                n_total == bytes@.len(),
                spec_parse_header(bytes@, offset as int) == Ok::<Header, DeserializationError>(
                    header,
                ),
                spec_parse_question(bytes@, offset + 12) == Ok::<
                    QuestionParse,
                    DeserializationError,
                >(QuestionParse { question: question@, consumed: qn as int }),
                ans_start == offset + 12 + qn,
                header.ancount > 0,
                0 <= k <= header.ancount,
                ans_start <= cur <= n_total,
                answers@.len() == k,
                match spec_parse_answers(bytes@, cur as int, header.ancount - k) {
                    Ok(ap) => spec_parse_answers(
                        bytes@,
                        ans_start as int,
                        header.ancount as int,
                    ) == Ok::<AnswersParse, DeserializationError>(
                        AnswersParse {
                            records: records_view(answers@) + ap.records,
                            consumed: (cur - ans_start) + ap.consumed,
                        },
                    ),
                    Err(e) => spec_parse_answers(bytes@, ans_start as int, header.ancount as int)
                        == Err::<AnswersParse, DeserializationError>(e),
                },
            decreases header.ancount - k,
        {
            let (rn, rr) = match ResourceRecord::deserialize(bytes, cur) {
                Ok(p) => p,
                Err(e) => {
                    return Err(e);
                },
            };
            proof {
                let ghost old_answers = answers@;
                match spec_parse_answers(bytes@, cur + rn, header.ancount - (k + 1)) {
                    Ok(ap) => {
                        assert(records_view(old_answers.push(rr)) =~= records_view(old_answers)
                            + seq![rr@]);
                        assert(records_view(old_answers) + (seq![rr@] + ap.records) =~= records_view(
                            old_answers.push(rr),
                        ) + ap.records);
                    },
                    Err(_) => {},
                }
            }
            answers.push(rr);
            cur = cur + rn;
            k = k + 1;
        }
        proof {
            assert(spec_parse_answers(bytes@, cur as int, 0) == Ok::<
                AnswersParse,
                DeserializationError,
            >(AnswersParse { records: Seq::empty(), consumed: 0 }));
            assert(records_view(answers@) + Seq::<RecordV>::empty() =~= records_view(answers@));
        }
        Ok(
            (
                cur - offset,
                DNSMessage {
                    header,
                    question,
                    answers: Some(answers),
                    authorities: None,
                    additional: None,
                },
            ),
        )
    }
}

/// Building a standard query for any grammar-valid hostname, encoding it and
/// decoding the result reproduces the identical question (name, type and
/// class) and header, flags and id included, with the whole buffer consumed
/// and no record sections.
pub proof fn lemma_build_query_round_trip(t: Seq<u8>, id: u16)
    requires
        valid_name(t),
        t.len() >= 1,
    ensures
        ({
            let h = spec_standard_query_header(id);
            let q = QuestionV { qname: t, qtype: Type::A, qclass: Class::Internet };
            let w = message_wire(h, q);
            spec_parse_message(w, 0) == Ok::<MessageParse, DeserializationError>(
                MessageParse {
                    message: MessageV {
                        header: h,
                        question: q,
                        answers: None,
                        authorities: None,
                        additional: None,
                    },
                    consumed: w.len() as int,
                },
            )
        }),
{
    let h = spec_standard_query_header(id);
    let q = QuestionV { qname: t, qtype: Type::A, qclass: Class::Internet };
    let w = message_wire(h, q);
    assert(w.subrange(0, 12) =~= header_wire(h));
    crate::header::lemma_header_wire_parse(w, 0, h);
    assert(w.subrange(12, 12 + question_wire(q).len() as int) =~= question_wire(q));
    crate::question::lemma_question_wire_parse(w, 12, q);
}

/// Decoding any buffer shorter than the fixed 12-byte header fails with a
/// buffer overflow: no field is read and nothing is decoded.
pub proof fn lemma_short_buffer_overflow(buf: Seq<u8>, pos: int)
    requires
        0 <= pos,
        buf.len() < pos + 12,
    ensures
        spec_parse_message(buf, pos) == Err::<MessageParse, DeserializationError>(
            DeserializationError::BufferOverflow,
        ),
{
}

} // verus!

//! The message objects of a DNS exchange: a query request built around a
//! single question, and a decoded response with its echoed questions and
//! its answer records.

use vstd::prelude::*;

verus! {

/// Why a name refused to encode.
#[derive(Clone, Copy, PartialEq, Eq, Debug)]
pub enum EncodeError {
    /// A label of the name is longer than its one-byte length prefix
    /// can say.
    LabelTooLong,
}

/// Why a response buffer refused to decode.
#[derive(Clone, Copy, PartialEq, Eq, Debug)]
pub enum DecodeError {
    /// Fewer bytes remained than the field being read needs.
    BufferUnderrun,
}

/// One question of a message: a textual domain name, a query type and a
/// query class.
#[derive(Debug, PartialEq, Eq)]
pub struct Query {
    pub name: Vec<u8>,
    pub query_type: u16,
    pub class: u16,
}

/// The mathematical value of a [`Query`].
pub ghost struct QueryV {
    pub name: Seq<u8>,
    pub query_type: u16,
    pub class: u16,
}

impl View for Query {
    type V = QueryV;

    open spec fn view(&self) -> QueryV {
        QueryV { name: self.name@, query_type: self.query_type, class: self.class }
    }
}

impl Query {
    /// A question over the given name, type and class.
    pub fn new(name: Vec<u8>, query_type: u16, class: u16) -> (r: Query)
        ensures
            r@ == (QueryV { name: name@, query_type, class }),
    {
        Query { name, query_type, class }
    }

    /// The question's domain name, in its textual form.
    pub fn get_name(&self) -> (r: Vec<u8>)
        ensures
            r@ == self.name@,
    {
        clone_bytes(&self.name)
    }
}

/// One answer record of a response: the name it speaks of, its type and
/// class, its time to live, the declared length of its data, and its
/// data read as a 32-bit IPv4 address.
#[derive(Debug, PartialEq, Eq)]
pub struct Answer {
    pub name: Vec<u8>,
    pub query_type: u16,
    pub class: u16,
    pub ttl: u32,
    pub data_length: u16,
    pub address: u32,
}

/// The mathematical value of an [`Answer`].
pub ghost struct AnswerV {
    pub name: Seq<u8>,
    pub query_type: u16,
    pub class: u16,
    pub ttl: u32,
    pub data_length: u16,
    pub address: u32,
}

impl View for Answer {
    type V = AnswerV;

    open spec fn view(&self) -> AnswerV {
        AnswerV {
            name: self.name@,
            query_type: self.query_type,
            class: self.class,
            ttl: self.ttl,
            data_length: self.data_length,
            address: self.address,
        }
    }
}

impl Answer {
    /// The four octets of the record's IPv4 address, highest first.
    pub fn address_octets(&self) -> (r: [u8; 4])
        ensures
            r@ == crate::wire::u32_bytes(self.address),
    {
        let a = self.address;
        let r = [(a / 0x1000000) as u8, ((a / 0x10000) % 256) as u8, ((a / 256) % 256) as u8, (
        a % 256) as u8];
        proof {
            assert(a / 0x1000000 <= 255) by (nonlinear_arith);
            assert(r@ =~= crate::wire::u32_bytes(a));
        }
        r
    }
}

/// A query message: the six header fields and the single question that a
/// query carries.
#[derive(Debug, PartialEq, Eq)]
pub struct DNSRequest {
    pub id: u16,
    pub name: Vec<u8>,
    pub flags: u16,
    pub query_count: u16,
    pub answer_rr: u16,
    pub auth_rr: u16,
    pub add_rr: u16,
    pub queries: Vec<Query>,
}

/// The mathematical value of a [`DNSRequest`].
pub ghost struct RequestV {
    pub id: u16,
    pub name: Seq<u8>,
    pub flags: u16,
    pub query_count: u16,
    pub answer_rr: u16,
    pub auth_rr: u16,
    pub add_rr: u16,
    pub queries: Seq<QueryV>,
}

impl View for DNSRequest {
    type V = RequestV;

    open spec fn view(&self) -> RequestV {
        RequestV {
            id: self.id,
            name: self.name@,
            flags: self.flags,
            query_count: self.query_count,
            answer_rr: self.answer_rr,
            auth_rr: self.auth_rr,
            add_rr: self.add_rr,
            queries: self.queries@.map_values(|q: Query| q@),
        }
    }
}

impl RequestV {
    /// A query message is one question under a header that says so: the
    /// question count is one, every record count is zero, and the one
    /// question carries the message's own name.
    pub open spec fn wf(self) -> bool {
        &&& self.query_count == 1
        &&& self.answer_rr == 0
        &&& self.auth_rr == 0
        &&& self.add_rr == 0
        &&& self.queries.len() == 1
        &&& self.queries[0].name == self.name
    }
}

/// The header flags of a standard recursive query: only the
/// recursion-desired and non-authenticated-data bits are set.
pub open spec fn query_flags() -> u16 {
    0x0120u16
}

/// The record type of an IPv4 address record.
pub open spec fn type_a() -> u16 {
    1u16
}

/// The record class of the Internet.
pub open spec fn class_in() -> u16 {
    1u16
}

impl DNSRequest {
    /// A standard recursive query for the A record of `name`, under a
    /// transaction id drawn fresh for this request.
    pub fn new(name: Vec<u8>) -> (r: DNSRequest)
        ensures
            r@.wf(),
            r@.name == name@,
            r@.flags == query_flags(),
            r@.queries[0].query_type == type_a(),
            r@.queries[0].class == class_in(),
    {
        let id = random_u16();
        DNSRequest::with_id(name, id)
    }

    /// A standard recursive query for the A record of `name`, under the
    /// given transaction id.
    pub fn with_id(name: Vec<u8>, id: u16) -> (r: DNSRequest)
        ensures
            r@.wf(),
            r@.id == id,
            r@.name == name@,
            r@.flags == query_flags(),
            r@.queries[0].query_type == type_a(),
            r@.queries[0].class == class_in(),
    {
        let query = Query::new(clone_bytes(&name), 1, 1);
        let mut queries: Vec<Query> = Vec::new();
        queries.push(query);
        let r = DNSRequest {
            id,
            name,
            flags: 0x0120,
            query_count: 1,
            answer_rr: 0,
            auth_rr: 0,
            add_rr: 0,
            queries,
        };
        proof {
            assert(r@.queries =~= seq![r.queries@[0]@]);
        }
        r
    }
}

/// A decoded response message: the six header fields, the echoed
/// questions, and the answer records.
#[derive(Debug, PartialEq, Eq)]
pub struct DNSResponse {
    pub id: u16,
    pub flags: u16,
    pub questions: u16,
    pub answer_rr: u16,
    pub auth_rr: u16,
    pub add_rr: u16,
    pub queries: Vec<Query>,
    pub answers: Vec<Answer>,
}

/// The mathematical value of a [`DNSResponse`].
pub ghost struct ResponseV {
    pub id: u16,
    pub flags: u16,
    pub questions: u16,
    pub answer_rr: u16,
    pub auth_rr: u16,
    pub add_rr: u16,
    pub queries: Seq<QueryV>,
    pub answers: Seq<AnswerV>,
}

impl View for DNSResponse {
    type V = ResponseV;

    open spec fn view(&self) -> ResponseV {
        ResponseV {
            id: self.id,
            flags: self.flags,
            questions: self.questions,
            answer_rr: self.answer_rr,
            auth_rr: self.auth_rr,
            add_rr: self.add_rr,
            queries: self.queries@.map_values(|q: Query| q@),
            answers: self.answers@.map_values(|a: Answer| a@),
        }
    }
}

impl DNSResponse {
    /// A response carrying the given header fields and no sections yet.
    pub fn new(id: u16, flags: u16, questions: u16, answer_rr: u16, auth_rr: u16, add_rr: u16) -> (
        r: DNSResponse)
        ensures
            r@ == (ResponseV {
                id,
                flags,
                questions,
                answer_rr,
                auth_rr,
                add_rr,
                queries: Seq::<QueryV>::empty(),
                answers: Seq::<AnswerV>::empty(),
            }),
    {
        let r = DNSResponse {
            id,
            flags,
            questions,
            answer_rr,
            auth_rr,
            add_rr,
            queries: Vec::new(),
            answers: Vec::new(),
        };
        proof {
            assert(r@.queries =~= Seq::<QueryV>::empty());
            assert(r@.answers =~= Seq::<AnswerV>::empty());
        }
        r
    }

    /// Appends one echoed question to the response.
    pub fn add_query(&mut self, query: Query)
        ensures
            final(self)@ == (ResponseV { queries: old(self)@.queries.push(query@), ..old(self)@ }),
    {
        let ghost q = query@;
        self.queries.push(query);
        proof {
            assert(self@.queries =~= old(self)@.queries.push(q));
        }
    }

    /// Appends one answer record to the response.
    pub fn add_answer(&mut self, answer: Answer)
        ensures
            final(self)@ == (ResponseV { answers: old(self)@.answers.push(answer@), ..old(self)@ }),
    {
        let ghost a = answer@;
        self.answers.push(answer);
        proof {
            assert(self@.answers =~= old(self)@.answers.push(a));
        }
    }
}

/// An exact copy of a byte vector.
pub fn clone_bytes(v: &Vec<u8>) -> (r: Vec<u8>)
    ensures
        r@ == v@,
{
    let n: usize = v.len();
    let mut r: Vec<u8> = Vec::new();
    let mut i: usize = 0;
    while i < n
        invariant
            n == v@.len(),
            i <= n,
            r@ =~= v@.take(i as int),
        decreases n - i,
    {
        r.push(v[i]);
        i = i + 1;
    }
    proof {
        assert(r@ =~= v@);
    }
    r
}

/// Relies on `rand::random`: a transaction id drawn from the thread's
/// generator; nothing is promised of its value.
#[verifier::external_body]
fn random_u16() -> u16 {
    rand::random()
}

} // verus!

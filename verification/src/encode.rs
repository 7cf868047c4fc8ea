//! Encoding query messages into the DNS wire format: the six big-endian
//! header fields, the length-prefixed name of the single question, and
//! its type and class.

use vstd::prelude::*;
use crate::message::{class_in, query_flags, type_a, DNSRequest, EncodeError, RequestV};
use crate::name::{encoded_name, labels_fit, max_label_len, split_labels, split_name,
    lemma_wire_labels_push, wire_labels};
use crate::wire::{push_u16, u16_bytes};

verus! {

/// The twelve wire bytes of a message header: id, flags and the four
/// section counts, each as two big-endian bytes.
pub open spec fn header_bytes(id: u16, flags: u16, qd: u16, an: u16, ns: u16, ar: u16) -> Seq<
    u8,
> {
    u16_bytes(id) + u16_bytes(flags) + u16_bytes(qd) + u16_bytes(an) + u16_bytes(ns) + u16_bytes(
        ar,
    )
}

/// The full wire form of a query request: its header, its encoded name,
/// and the type and class of its one question.
pub open spec fn encoded_request(r: RequestV) -> Seq<u8> {
    header_bytes(r.id, r.flags, r.query_count, r.answer_rr, r.auth_rr, r.add_rr) + encoded_name(
        r.name,
    ) + u16_bytes(r.queries[0].query_type) + u16_bytes(r.queries[0].class)
}

/// The wire form of a standard recursive A query for `name` under the
/// transaction id `id`.
pub open spec fn encoded_query(id: u16, name: Seq<u8>) -> Seq<u8> {
    header_bytes(id, query_flags(), 1u16, 0u16, 0u16, 0u16) + encoded_name(name) + u16_bytes(
        type_a(),
    ) + u16_bytes(class_in())
}

/// Appends every byte of `src` to `out`.
pub fn append_bytes(out: &mut Vec<u8>, src: &Vec<u8>)
    ensures
        final(out)@ == old(out)@ + src@,
{
    let n: usize = src.len();
    let mut i: usize = 0;
    while i < n
        invariant
            n == src@.len(),
            i <= n,
            out@ =~= old(out)@ + src@.take(i as int),
        decreases n - i,
    {
        out.push(src[i]);
        proof {
            assert(out@ =~= old(out)@ + src@.take(i + 1));
        }
        i = i + 1;
    }
    proof {
        assert(out@ =~= old(out)@ + src@);
    }
}

/// The DNS wire encoding of a textual name: each dot-separated label
/// behind a one-byte length prefix, closed by a zero byte. Refuses a
/// name with a label too long for the prefix, and encodes every other
/// name exactly.
pub fn encode_name(name: &Vec<u8>) -> (r: Result<Vec<u8>, EncodeError>)
    ensures
        labels_fit(name@) ==> (r matches Ok(v) && v@ == encoded_name(name@)),
        !labels_fit(name@) ==> r matches Err(EncodeError::LabelTooLong),
{
    let labels = split_name(name);
    let ghost ls = split_labels(name@);
    let n: usize = labels.len();
    let mut out: Vec<u8> = Vec::new();
    let mut i: usize = 0;
    while i < n
        invariant
            labels@.map_values(|l: Vec<u8>| l@) == ls,
            ls == split_labels(name@),
            n == labels@.len(),
            i <= n,
            out@ == wire_labels(ls.take(i as int)),
            forall|j: int| 0 <= j < i ==> #[trigger] ls[j].len() <= max_label_len(),
        decreases n - i,
    {
        let label = &labels[i];
        proof {
            assert(ls[i as int] == labels@.map_values(|l: Vec<u8>| l@)[i as int]);
        }
        if label.len() > 255 {
            proof {
                assert(ls[i as int].len() > max_label_len());
            }
            return Err(EncodeError::LabelTooLong);
        }
        out.push(label.len() as u8);
        append_bytes(&mut out, label);
        proof {
            lemma_wire_labels_push(ls.take(i as int), ls[i as int]);
            assert(ls.take(i + 1) =~= ls.take(i as int).push(ls[i as int]));
            assert(out@ =~= wire_labels(ls.take(i + 1)));
        }
        i = i + 1;
    }
    proof {
        assert(ls.take(n as int) =~= ls);
    }
    out.push(0);
    proof {
        assert(out@ =~= encoded_name(name@));
    }
    Ok(out)
}

impl DNSRequest {
    /// The complete wire message of this request: header, encoded name,
    /// and the question's type and class. Refuses the message exactly
    /// when a label of its name is too long to encode.
    pub fn encode(&self) -> (r: Result<Vec<u8>, EncodeError>)
        requires
            self@.wf(),
        ensures
            labels_fit(self@.name) ==> (r matches Ok(v) && v@ == encoded_request(self@)),
            !labels_fit(self@.name) ==> r matches Err(EncodeError::LabelTooLong),
    {
        let encoded = match encode_name(&self.name) {
            Ok(encoded) => encoded,
            Err(e) => {
                return Err(e);
            },
        };
        let mut out: Vec<u8> = Vec::new();
        push_u16(&mut out, self.id);
        push_u16(&mut out, self.flags);
        push_u16(&mut out, self.query_count);
        push_u16(&mut out, self.answer_rr);
        push_u16(&mut out, self.auth_rr);
        push_u16(&mut out, self.add_rr);
        append_bytes(&mut out, &encoded);
        proof {
            assert(self.queries@.len() == 1);
        }
        let question = &self.queries[0];
        push_u16(&mut out, question.query_type);
        push_u16(&mut out, question.class);
        proof {
            assert(self@.queries[0] == self.queries@[0]@);
            assert(out@ =~= encoded_request(self@));
        }
        Ok(out)
    }
}

/// The wire bytes of a standard recursive A query for `name` under the
/// transaction id `id`. Refuses the name exactly when one of its labels
/// is too long to encode.
pub fn encode_query(name: Vec<u8>, id: u16) -> (r: Result<Vec<u8>, EncodeError>)
    ensures
        labels_fit(name@) ==> (r matches Ok(v) && v@ == encoded_query(id, name@)),
        !labels_fit(name@) ==> r matches Err(EncodeError::LabelTooLong),
{
    let ghost name_view = name@;
    let request = DNSRequest::with_id(name, id);
    let r = request.encode();
    proof {
        if labels_fit(name_view) {
            assert(encoded_request(request@) =~= encoded_query(id, name_view));
        }
    }
    r
}

} // verus!

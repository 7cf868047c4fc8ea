//! Decoding DNS response buffers: bytes are consumed strictly left to
//! right — the six header fields, then the echoed question section, then
//! the answer records — and a buffer that runs out under a field is
//! refused, never read past its end.

use vstd::prelude::*;
use crate::message::{clone_bytes, Answer, AnswerV, DNSResponse, DecodeError, Query, QueryV,
    ResponseV};
use crate::name::{dot, join_labels, lemma_join_labels_push};
use crate::wire::{be16_at, be32_at, read_u16, read_u32};

verus! {

/// The labels that start at byte `pos` of `s`: each one behind its
/// length byte, closed by a zero byte. `None` when the buffer ends
/// under a length byte or under a label.
pub open spec fn parse_labels(s: Seq<u8>, pos: int) -> Option<(Seq<Seq<u8>>, int)>
    decreases s.len() - pos,
{
    if pos < 0 || pos >= s.len() {
        None
    } else if s[pos] == 0 {
        Some((Seq::<Seq<u8>>::empty(), pos + 1))
    } else {
        let l = s[pos] as int;
        if pos + 1 + l > s.len() {
            None
        } else {
            match parse_labels(s, pos + 1 + l) {
                None => None,
                Some((ls, end)) => Some(
                    (seq![s.subrange(pos + 1, pos + 1 + l)] + ls, end),
                ),
            }
        }
    }
}

/// A parse of labels ends past where it began and within the buffer.
pub proof fn lemma_parse_labels_bounds(s: Seq<u8>, pos: int)
    requires
        parse_labels(s, pos) is Some,
    ensures
        pos < parse_labels(s, pos).unwrap().1 <= s.len(),
    decreases s.len() - pos,
{
    if s[pos] != 0 {
        lemma_parse_labels_bounds(s, pos + 1 + s[pos] as int);
    }
}

/// The question that starts at byte `pos` of `s`: its name's labels,
/// then its type and class as 16-bit fields.
pub open spec fn parse_question(s: Seq<u8>, pos: int) -> Option<(QueryV, int)> {
    match parse_labels(s, pos) {
        None => None,
        Some((ls, p)) => if p + 4 <= s.len() {
            Some(
                (
                    QueryV {
                        name: join_labels(ls),
                        query_type: be16_at(s, p),
                        class: be16_at(s, p + 2),
                    },
                    p + 4,
                ),
            )
        } else {
            None
        },
    }
}

/// The `n` questions that start at byte `pos` of `s`, in order.
pub open spec fn parse_questions(s: Seq<u8>, pos: int, n: int) -> Option<(Seq<QueryV>, int)>
    decreases n,
{
    if n <= 0 {
        Some((Seq::<QueryV>::empty(), pos))
    } else {
        match parse_question(s, pos) {
            None => None,
            Some((q, p)) => match parse_questions(s, p, n - 1) {
                None => None,
                Some((qs, end)) => Some((seq![q] + qs, end)),
            },
        }
    }
}

/// The answer record that starts at byte `pos` of `s`. The two leading
/// bytes are the record's name-pointer field; this decoder assumes no
/// compression, skips them, and gives the record the name handed in.
/// The record data is read as one 32-bit IPv4 address.
pub open spec fn parse_answer(s: Seq<u8>, pos: int, name: Seq<u8>) -> Option<(AnswerV, int)> {
    if 0 <= pos && pos + 16 <= s.len() {
        Some(
            (
                AnswerV {
                    name,
                    query_type: be16_at(s, pos + 2),
                    class: be16_at(s, pos + 4),
                    ttl: be32_at(s, pos + 6),
                    data_length: be16_at(s, pos + 10),
                    address: be32_at(s, pos + 12),
                },
                pos + 16,
            ),
        )
    } else {
        None
    }
}

/// The `n` answer records that start at byte `pos` of `s`, in order,
/// each under the name handed in.
pub open spec fn parse_answers(s: Seq<u8>, pos: int, n: int, name: Seq<u8>) -> Option<
    (Seq<AnswerV>, int),
>
    decreases n,
{
    if n <= 0 {
        Some((Seq::<AnswerV>::empty(), pos))
    } else {
        match parse_answer(s, pos, name) {
            None => None,
            Some((a, p)) => match parse_answers(s, p, n - 1, name) {
                None => None,
                Some((ans, end)) => Some((seq![a] + ans, end)),
            },
        }
    }
}

/// The name that the answer section speaks of: the first echoed
/// question's name, or the empty name when no question was echoed.
pub open spec fn answers_name(qs: Seq<QueryV>) -> Seq<u8> {
    if qs.len() > 0 {
        qs[0].name
    } else {
        Seq::<u8>::empty()
    }
}

/// The response that a whole buffer holds: a 12-byte header, the
/// question section read as many times as the header's question count
/// says, then the answer section read as many times as the answer count
/// says. Bytes past the last answer are ignored, as a datagram may
/// carry sections this decoder does not model.
pub open spec fn parse_response_spec(s: Seq<u8>) -> Option<ResponseV> {
    if s.len() < 12 {
        None
    } else {
        match parse_questions(s, 12, be16_at(s, 4) as int) {
            None => None,
            Some((qs, p)) => match parse_answers(s, p, be16_at(s, 6) as int, answers_name(qs)) {
                None => None,
                Some((ans, _end)) => Some(
                    ResponseV {
                        id: be16_at(s, 0),
                        flags: be16_at(s, 2),
                        questions: be16_at(s, 4),
                        answer_rr: be16_at(s, 6),
                        auth_rr: be16_at(s, 8),
                        add_rr: be16_at(s, 10),
                        queries: qs,
                        answers: ans,
                    },
                ),
            },
        }
    }
}

/// Reads the labels that start at byte `start` and joins them with dots
/// into a textual name, returning it with the position one past the
/// closing zero byte.
pub fn parse_name(data: &Vec<u8>, start: usize) -> (r: Result<(Vec<u8>, usize), DecodeError>)
    ensures
        parse_labels(data@, start as int) matches Some(lp) ==> (r matches Ok(np) && np.0@
            == join_labels(lp.0) && np.1 == lp.1),
        parse_labels(data@, start as int) is None ==> r matches Err(DecodeError::BufferUnderrun),
{
    let n: usize = data.len();
    if start > n {
        return Err(DecodeError::BufferUnderrun);
    }
    let mut name: Vec<u8> = Vec::new();
    let mut cur: usize = start;
    let mut first: bool = true;
    let ghost mut done: Seq<Seq<u8>> = Seq::<Seq<u8>>::empty();
    proof {
        match parse_labels(data@, start as int) {
            Some(lp) => {
                assert(Seq::<Seq<u8>>::empty() + lp.0 =~= lp.0);
            },
            None => {},
        }
    }
    while cur < n
        invariant
            n == data@.len(),
            cur <= n,
            name@ == join_labels(done),
            first <==> done.len() == 0,
            ({
                let full = parse_labels(data@, start as int);
                match parse_labels(data@, cur as int) {
                    None => full is None,
                    Some(lp2) => full == Some::<(Seq<Seq<u8>>, int)>((done + lp2.0, lp2.1)),
                }
            }),
        decreases n - cur,
    {
        let len_byte = data[cur];
        if len_byte == 0 {
            proof {
                assert(done + Seq::<Seq<u8>>::empty() =~= done);
            }
            return Ok((name, cur + 1));
        }
        let l = len_byte as usize;
        if l > n - cur - 1 {
            return Err(DecodeError::BufferUnderrun);
        }
        if !first {
            name.push(46u8);
        }
        let ghost label = data@.subrange(cur + 1, cur + 1 + l);
        let ghost name_before = name@;
        let mut j: usize = 0;
        while j < l
            invariant
                n == data@.len(),
                cur + 1 + l <= n,
                j <= l,
                label == data@.subrange(cur + 1, cur + 1 + l),
                name@ =~= name_before + data@.subrange(cur + 1, cur + 1 + j),
            decreases l - j,
        {
            name.push(data[cur + 1 + j]);
            proof {
                assert(name@ =~= name_before + data@.subrange(cur + 1, cur + 1 + (j + 1)));
            }
            j = j + 1;
        }
        proof {
            lemma_join_labels_push(done, label);
            if done.len() == 0 {
                assert(name_before =~= join_labels(done));
                assert(name@ =~= join_labels(done.push(label)));
            } else {
                assert(name_before =~= join_labels(done) + seq![dot()]);
                assert(name@ =~= join_labels(done) + seq![dot()] + label);
                assert(name@ =~= join_labels(done.push(label)));
            }
            let cur_next = cur + 1 + l;
            match parse_labels(data@, cur_next as int) {
                None => {
                    assert(parse_labels(data@, cur as int) is None);
                },
                Some(lp2) => {
                    assert(parse_labels(data@, cur as int) == Some::<(Seq<Seq<u8>>, int)>(
                        (seq![label] + lp2.0, lp2.1),
                    ));
                    assert(done + (seq![label] + lp2.0) =~= done.push(label) + lp2.0);
                },
            }
            done = done.push(label);
        }
        cur = cur + 1 + l;
        first = false;
    }
    Err(DecodeError::BufferUnderrun)
}

/// Reads the question that starts at byte `start`: its dotted name,
/// then its type and class.
pub fn parse_question_at(data: &Vec<u8>, start: usize) -> (r: Result<
    (Query, usize),
    DecodeError,
>)
    ensures
        parse_question(data@, start as int) matches Some(qp) ==> (r matches Ok(rp) && rp.0@ == qp.0
            && rp.1 == qp.1),
        parse_question(data@, start as int) is None ==> r matches Err(
            DecodeError::BufferUnderrun,
        ),
{
    let (name, p) = match parse_name(data, start) {
        Ok(x) => x,
        Err(e) => {
            return Err(e);
        },
    };
    proof {
        lemma_parse_labels_bounds(data@, start as int);
    }
    let n: usize = data.len();
    if n - p < 4 {
        return Err(DecodeError::BufferUnderrun);
    }
    let query_type = read_u16(data, p);
    let class = read_u16(data, p + 2);
    Ok((Query { name, query_type, class }, p + 4))
}

/// Decodes a whole response buffer: the 12-byte header, then the
/// question section — read as many times as the header's question count
/// says — then the answer records, each borrowing the first question's
/// name. Returns a buffer-underrun error exactly when the buffer ends
/// under a field being read.
pub fn parse_response(data: &Vec<u8>) -> (r: Result<DNSResponse, DecodeError>)
    ensures
        parse_response_spec(data@) matches Some(v) ==> (r matches Ok(resp) && resp@ == v),
        parse_response_spec(data@) is None ==> r matches Err(DecodeError::BufferUnderrun),
{
    let n: usize = data.len();
    if n < 12 {
        return Err(DecodeError::BufferUnderrun);
    }
    let id = read_u16(data, 0);
    let flags = read_u16(data, 2);
    let questions = read_u16(data, 4);
    let answer_rr = read_u16(data, 6);
    let auth_rr = read_u16(data, 8);
    let add_rr = read_u16(data, 10);
    let mut resp = DNSResponse::new(id, flags, questions, answer_rr, auth_rr, add_rr);
    let mut pos: usize = 12;
    proof {
        match parse_questions(data@, 12, questions as int) {
            Some(x) => {
                assert(Seq::<QueryV>::empty() + x.0 =~= x.0);
            },
            None => {},
        }
    }
    let mut i: u16 = 0;
    while i < questions
        invariant
            n == data@.len(),
            12 <= n,
            i <= questions,
            pos <= n,
            id == be16_at(data@, 0),
            flags == be16_at(data@, 2),
            questions == be16_at(data@, 4),
            answer_rr == be16_at(data@, 6),
            auth_rr == be16_at(data@, 8),
            add_rr == be16_at(data@, 10),
            resp@ == (ResponseV {
                id,
                flags,
                questions,
                answer_rr,
                auth_rr,
                add_rr,
                queries: resp@.queries,
                answers: Seq::<AnswerV>::empty(),
            }),
            ({
                let full = parse_questions(data@, 12, questions as int);
                match parse_questions(data@, pos as int, questions - i) {
                    None => full is None,
                    Some(x) => full == Some::<(Seq<QueryV>, int)>((resp@.queries + x.0, x.1)),
                }
            }),
        decreases questions - i,
    {
        let (q, p2) = match parse_question_at(data, pos) {
            Ok(x) => x,
            Err(e) => {
                return Err(e);
            },
        };
        proof {
            let qp = parse_question(data@, pos as int).unwrap();
            match parse_questions(data@, p2 as int, questions - (i + 1)) {
                None => {},
                Some(x) => {
                    assert(parse_questions(data@, pos as int, questions - i)
                        == Some::<(Seq<QueryV>, int)>((seq![qp.0] + x.0, x.1)));
                    assert(resp@.queries + (seq![qp.0] + x.0) =~= resp@.queries.push(qp.0) + x.0);
                },
            }
        }
        resp.add_query(q);
        pos = p2;
        i = i + 1;
    }
    proof {
        assert(parse_questions(data@, pos as int, 0) == Some::<(Seq<QueryV>, int)>(
            (Seq::<QueryV>::empty(), pos as int),
        ));
        assert(resp@.queries + Seq::<QueryV>::empty() =~= resp@.queries);
        assert(parse_questions(data@, 12, questions as int) == Some::<(Seq<QueryV>, int)>(
            (resp@.queries, pos as int),
        ));
    }
    let aname: Vec<u8> = if resp.queries.len() > 0 {
        resp.queries[0].get_name()
    } else {
        Vec::new()
    };
    proof {
        if resp.queries@.len() > 0 {
            assert(resp@.queries[0] == resp.queries@[0]@);
        }
        assert(aname@ == answers_name(resp@.queries));
        match parse_answers(data@, pos as int, answer_rr as int, aname@) {
            Some(x) => {
                assert(Seq::<AnswerV>::empty() + x.0 =~= x.0);
            },
            None => {},
        }
    }
    let ghost qs = resp@.queries;
    let ghost qend = pos as int;
    let mut j: u16 = 0;
    while j < answer_rr
        invariant
            n == data@.len(),
            12 <= n,
            j <= answer_rr,
            pos <= n,
            id == be16_at(data@, 0),
            flags == be16_at(data@, 2),
            questions == be16_at(data@, 4),
            answer_rr == be16_at(data@, 6),
            auth_rr == be16_at(data@, 8),
            add_rr == be16_at(data@, 10),
            aname@ == answers_name(qs),
            parse_questions(data@, 12, questions as int) == Some::<(Seq<QueryV>, int)>((qs, qend)),
            resp@ == (ResponseV {
                id,
                flags,
                questions,
                answer_rr,
                auth_rr,
                add_rr,
                queries: qs,
                answers: resp@.answers,
            }),
            ({
                let full = parse_answers(data@, qend, answer_rr as int, aname@);
                match parse_answers(data@, pos as int, answer_rr - j, aname@) {
                    None => full is None,
                    Some(x) => full == Some::<(Seq<AnswerV>, int)>((resp@.answers + x.0, x.1)),
                }
            }),
        decreases answer_rr - j,
    {
        if n - pos < 16 {
            return Err(DecodeError::BufferUnderrun);
        }
        let query_type = read_u16(data, pos + 2);
        let class = read_u16(data, pos + 4);
        let ttl = read_u32(data, pos + 6);
        let data_length = read_u16(data, pos + 10);
        let address = read_u32(data, pos + 12);
        let answer = Answer {
            name: clone_bytes(&aname),
            query_type,
            class,
            ttl,
            data_length,
            address,
        };
        proof {
            let ap = parse_answer(data@, pos as int, aname@).unwrap();
            assert(ap.0 == answer@);
            match parse_answers(data@, pos + 16, answer_rr - (j + 1), aname@) {
                None => {},
                Some(x) => {
                    assert(parse_answers(data@, pos as int, answer_rr - j, aname@)
                        == Some::<(Seq<AnswerV>, int)>((seq![ap.0] + x.0, x.1)));
                    assert(resp@.answers + (seq![ap.0] + x.0) =~= resp@.answers.push(ap.0) + x.0);
                },
            }
        }
        resp.add_answer(answer);
        pos = pos + 16;
        j = j + 1;
    }
    proof {
        assert(parse_answers(data@, pos as int, 0, aname@) == Some::<(Seq<AnswerV>, int)>(
            (Seq::<AnswerV>::empty(), pos as int),
        ));
        assert(resp@.answers + Seq::<AnswerV>::empty() =~= resp@.answers);
        assert(parse_answers(data@, qend, answer_rr as int, aname@) == Some::<(Seq<AnswerV>, int)>(
            (resp@.answers, pos as int),
        ));
    }
    Ok(resp)
}

} // verus!

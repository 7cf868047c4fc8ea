//! The round trip of the codec: a name whose labels fit the wire comes
//! back unchanged when the message that encodes it is decoded again.

use vstd::prelude::*;
use crate::decode::{parse_answers, parse_labels, parse_question, parse_questions,
    parse_response_spec};
use crate::encode::{encoded_query, header_bytes};
use crate::message::{class_in, query_flags, type_a, AnswerV, QueryV};
use crate::name::{encoded_name, join_labels, lemma_join_split, split_labels, wire_labels};
use crate::wire::{be16_at, lemma_u16_round_trip, u16_bytes};

verus! {

/// Parsing labels out of their own wire form gives the labels back and
/// stops one byte past their closing zero, whatever follows them in the
/// buffer. Holds for labels that the wire can carry: none empty, none
/// longer than a length byte can say.
pub proof fn lemma_parse_wire_labels(s: Seq<u8>, pos: int, ls: Seq<Seq<u8>>, tail: Seq<u8>)
    requires
        0 <= pos <= s.len(),
        forall|i: int| 0 <= i < ls.len() ==> 1 <= #[trigger] ls[i].len() <= 255,
        s.subrange(pos, s.len() as int) == wire_labels(ls) + seq![0u8] + tail,
    ensures
        parse_labels(s, pos) == Some::<(Seq<Seq<u8>>, int)>(
            (ls, pos + wire_labels(ls).len() + 1),
        ),
    decreases ls.len(),
{
    let suffix = s.subrange(pos, s.len() as int);
    if ls.len() == 0 {
        assert(wire_labels(ls) == Seq::<u8>::empty());
        assert(suffix =~= seq![0u8] + tail);
        assert(suffix.len() >= 1);
        assert(pos < s.len());
        assert(s[pos] == suffix[0]);
        assert(s[pos] == 0);
    } else {
        let l0 = ls[0];
        let len0 = l0.len() as int;
        let rest = ls.drop_first();
        assert(wire_labels(ls) == seq![l0.len() as u8] + l0 + wire_labels(rest));
        assert(wire_labels(ls).len() >= 1);
        assert(suffix.len() == wire_labels(ls).len() + 1 + tail.len());
        assert(suffix.len() >= 1);
        assert(pos < s.len());
        assert(s[pos] == suffix[0]);
        assert(suffix[0] == (wire_labels(ls) + seq![0u8] + tail)[0]);
        assert((wire_labels(ls) + seq![0u8] + tail)[0] == wire_labels(ls)[0]);
        assert(wire_labels(ls)[0] == (seq![l0.len() as u8] + l0 + wire_labels(rest))[0]);
        assert(s[pos] == l0.len() as u8);
        assert(1 <= len0 <= 255);
        assert(s[pos] as int == len0);
        assert(s[pos] != 0);
        assert(suffix.len() == wire_labels(ls).len() + 1 + tail.len());
        assert(wire_labels(ls).len() >= 1 + len0);
        assert(pos + 1 + len0 <= s.len());
        assert(s.subrange(pos + 1, pos + 1 + len0) =~= l0) by {
            assert forall|k: int| 0 <= k < len0 implies s.subrange(pos + 1, pos + 1 + len0)[k]
                == l0[k] by {
                assert(s.subrange(pos + 1, pos + 1 + len0)[k] == s[pos + 1 + k]);
                assert(s[pos + 1 + k] == suffix[1 + k]);
                assert(suffix[1 + k] == wire_labels(ls)[1 + k]);
                assert(wire_labels(ls)[1 + k] == l0[k]);
            }
        }
        let pos2 = pos + 1 + len0;
        assert(s.subrange(pos2, s.len() as int) =~= wire_labels(rest) + seq![0u8] + tail) by {
            assert forall|m: int|
                0 <= m < s.len() - pos2 implies s.subrange(pos2, s.len() as int)[m] == (
            wire_labels(rest) + seq![0u8] + tail)[m] by {
                assert(s.subrange(pos2, s.len() as int)[m] == s[pos2 + m]);
                assert(s[pos2 + m] == suffix[1 + len0 + m]);
                assert(suffix[1 + len0 + m] == (wire_labels(ls) + seq![0u8] + tail)[1 + len0
                    + m]);
                if 1 + len0 + m < wire_labels(ls).len() {
                    assert(wire_labels(ls)[1 + len0 + m] == wire_labels(rest)[m]);
                } else {
                    assert(wire_labels(ls).len() == 1 + len0 + wire_labels(rest).len());
                }
            }
        }
        assert(forall|i: int| 0 <= i < rest.len() ==> 1 <= #[trigger] rest[i].len() <= 255);
        lemma_parse_wire_labels(s, pos2, rest, tail);
        assert(parse_labels(s, pos) == Some::<(Seq<Seq<u8>>, int)>(
            (seq![s.subrange(pos + 1, pos + 1 + len0)] + rest, pos2 + wire_labels(rest).len()
                + 1),
        ));
        assert(seq![l0] + rest =~= ls);
        assert(pos2 + wire_labels(rest).len() + 1 == pos + wire_labels(ls).len() + 1);
    }
}

/// The round trip of a query: the message that encodes a standard
/// recursive A query for a name whose labels each hold 1 to 63 bytes
/// decodes to a message that echoes the very same name, under the same
/// transaction id, flags and counts, with no answer records.
pub proof fn lemma_query_round_trip(id: u16, name: Seq<u8>)
    requires
        forall|i: int| 0 <= i < split_labels(name).len() ==> 1 <= #[trigger] split_labels(
            name,
        )[i].len() <= 63,
    ensures
        parse_response_spec(encoded_query(id, name)) matches Some(v) && v.id == id && v.flags
            == query_flags() && v.questions == 1 && v.answer_rr == 0 && v.auth_rr == 0 && v.add_rr
            == 0 && v.queries =~= seq![
            QueryV { name, query_type: type_a(), class: class_in() },
        ] && v.answers.len() == 0,
{
    let msg = encoded_query(id, name);
    let header = header_bytes(id, query_flags(), 1u16, 0u16, 0u16, 0u16);
    let ls = split_labels(name);
    let wire = wire_labels(ls);
    let enc = encoded_name(name);
    let tail = u16_bytes(type_a()) + u16_bytes(class_in());
    assert(header.len() == 12);
    assert(enc == wire + seq![0u8]);
    assert(msg =~= header + wire + seq![0u8] + tail);
    assert(msg.len() == 12 + wire.len() + 1 + 4);

    assert(be16_at(msg, 0) == id) by {
        assert(msg[0] == u16_bytes(id)[0] && msg[1] == u16_bytes(id)[1]);
        lemma_u16_round_trip(id);
    }
    assert(be16_at(msg, 2) == query_flags()) by {
        assert(msg[2] == u16_bytes(query_flags())[0] && msg[3] == u16_bytes(query_flags())[1]);
        lemma_u16_round_trip(query_flags());
    }
    assert(be16_at(msg, 4) == 1u16) by {
        assert(msg[4] == u16_bytes(1u16)[0] && msg[5] == u16_bytes(1u16)[1]);
        lemma_u16_round_trip(1u16);
    }
    assert(be16_at(msg, 6) == 0u16) by {
        assert(msg[6] == u16_bytes(0u16)[0] && msg[7] == u16_bytes(0u16)[1]);
        lemma_u16_round_trip(0u16);
    }
    assert(be16_at(msg, 8) == 0u16) by {
        assert(msg[8] == u16_bytes(0u16)[0] && msg[9] == u16_bytes(0u16)[1]);
        lemma_u16_round_trip(0u16);
    }
    assert(be16_at(msg, 10) == 0u16) by {
        assert(msg[10] == u16_bytes(0u16)[0] && msg[11] == u16_bytes(0u16)[1]);
        lemma_u16_round_trip(0u16);
    }

    assert(msg.subrange(12, msg.len() as int) =~= wire + seq![0u8] + tail) by {
        assert forall|m: int|
            0 <= m < msg.len() - 12 implies msg.subrange(12, msg.len() as int)[m] == (wire
            + seq![0u8] + tail)[m] by {
            assert(msg.subrange(12, msg.len() as int)[m] == msg[12 + m]);
            assert(msg[12 + m] == (header + wire + seq![0u8] + tail)[12 + m]);
        }
    }
    lemma_parse_wire_labels(msg, 12, ls, tail);
    let p = 12 + wire.len() as int + 1;
    assert(parse_labels(msg, 12) == Some::<(Seq<Seq<u8>>, int)>((ls, p)));
    assert(p + 4 == msg.len());
    lemma_join_split(name);
    assert(be16_at(msg, p) == type_a()) by {
        assert(msg[p] == tail[0] && msg[p + 1] == tail[1]);
        assert(tail[0] == u16_bytes(type_a())[0] && tail[1] == u16_bytes(type_a())[1]);
        lemma_u16_round_trip(type_a());
    }
    assert(be16_at(msg, p + 2) == class_in()) by {
        assert(msg[p + 2] == tail[2] && msg[p + 3] == tail[3]);
        assert(tail[2] == u16_bytes(class_in())[0] && tail[3] == u16_bytes(class_in())[1]);
        lemma_u16_round_trip(class_in());
    }
    let q = QueryV { name, query_type: type_a(), class: class_in() };
    assert(parse_question(msg, 12) == Some::<(QueryV, int)>((q, p + 4)));
    assert(parse_questions(msg, p + 4, 0) == Some::<(Seq<QueryV>, int)>(
        (Seq::<QueryV>::empty(), p + 4),
    ));
    assert(seq![q] + Seq::<QueryV>::empty() =~= seq![q]);
    assert(parse_questions(msg, 12, 1) == Some::<(Seq<QueryV>, int)>((seq![q], p + 4)));
    assert(parse_answers(msg, p + 4, 0, name) == Some::<(Seq<AnswerV>, int)>(
        (Seq::<AnswerV>::empty(), p + 4),
    ));
    assert(crate::decode::answers_name(seq![q]) == name);
    assert(parse_response_spec(msg) matches Some(v) && v.queries == seq![q] && v.answers
        == Seq::<AnswerV>::empty());
}

/// A name whose labels each hold 1 to 63 bytes survives the wire: it
/// can be encoded, and joining the labels parsed back out of the
/// encoding gives the name again.
pub proof fn lemma_name_round_trip(name: Seq<u8>)
    requires
        forall|i: int| 0 <= i < split_labels(name).len() ==> 1 <= #[trigger] split_labels(
            name,
        )[i].len() <= 63,
    ensures
        parse_labels(encoded_name(name), 0) matches Some(lp) && join_labels(lp.0) == name
            && lp.1 == encoded_name(name).len(),
{
    let enc = encoded_name(name);
    let ls = split_labels(name);
    assert(enc.subrange(0, enc.len() as int) =~= wire_labels(ls) + seq![0u8]
        + Seq::<u8>::empty());
    lemma_parse_wire_labels(enc, 0, ls, Seq::<u8>::empty());
    lemma_join_split(name);
}

} // verus!

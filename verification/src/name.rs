//! Domain names on the wire: a textual name is a sequence of labels
//! joined by dots, and its DNS encoding is each label prefixed by its
//! length in one byte, closed by a zero-length byte.

use vstd::prelude::*;

verus! {

/// The byte that separates labels in the textual form of a name.
pub open spec fn dot() -> u8 {
    46u8
}

/// The longest label that a one-byte length prefix can carry.
pub open spec fn max_label_len() -> int {
    255
}

/// The labels of a textual name: the dot-separated pieces, in order.
/// An empty name has one empty label, as splitting on dots gives it.
pub open spec fn split_labels(s: Seq<u8>) -> Seq<Seq<u8>>
    decreases s.len(),
{
    if s.len() == 0 {
        seq![Seq::<u8>::empty()]
    } else if s[0] == dot() {
        seq![Seq::<u8>::empty()] + split_labels(s.drop_first())
    } else {
        let rest = split_labels(s.drop_first());
        seq![seq![s[0]] + rest[0]] + rest.drop_first()
    }
}

/// The textual name that a sequence of labels spells, dots between them.
pub open spec fn join_labels(ls: Seq<Seq<u8>>) -> Seq<u8>
    decreases ls.len(),
{
    if ls.len() == 0 {
        Seq::<u8>::empty()
    } else if ls.len() == 1 {
        ls[0]
    } else {
        ls[0] + seq![dot()] + join_labels(ls.drop_first())
    }
}

/// The wire bytes of a sequence of labels: each one behind its length
/// byte, without the closing zero.
pub open spec fn wire_labels(ls: Seq<Seq<u8>>) -> Seq<u8>
    decreases ls.len(),
{
    if ls.len() == 0 {
        Seq::<u8>::empty()
    } else {
        seq![ls[0].len() as u8] + ls[0] + wire_labels(ls.drop_first())
    }
}

/// The full wire encoding of a textual name: its labels, then a zero byte.
pub open spec fn encoded_name(s: Seq<u8>) -> Seq<u8> {
    wire_labels(split_labels(s)) + seq![0u8]
}

/// Whether every label of a textual name fits behind a one-byte length
/// prefix; the encoder succeeds exactly on such names.
pub open spec fn labels_fit(s: Seq<u8>) -> bool {
    forall|i: int|
        0 <= i < split_labels(s).len() ==> #[trigger] split_labels(s)[i].len() <= max_label_len()
}

/// Splitting a name always yields at least one label.
pub proof fn lemma_split_nonempty(s: Seq<u8>)
    ensures
        split_labels(s).len() >= 1,
    decreases s.len(),
{
    if s.len() != 0 {
        lemma_split_nonempty(s.drop_first());
    }
}

/// Joining the labels of a name gives the name back.
pub proof fn lemma_join_split(s: Seq<u8>)
    ensures
        join_labels(split_labels(s)) == s,
    decreases s.len(),
{
    if s.len() == 0 {
    } else {
        let rest = s.drop_first();
        lemma_join_split(rest);
        lemma_split_nonempty(rest);
        if s[0] == dot() {
            assert(split_labels(s) == seq![Seq::<u8>::empty()] + split_labels(rest));
            assert(split_labels(s).len() >= 2);
            assert(split_labels(s).drop_first() =~= split_labels(rest));
            assert(join_labels(split_labels(s)) == Seq::<u8>::empty() + seq![dot()]
                + join_labels(split_labels(rest)));
            assert(join_labels(split_labels(s)) =~= s);
        } else {
            let r = split_labels(rest);
            let first = seq![s[0]] + r[0];
            assert(split_labels(s) == seq![first] + r.drop_first());
            if r.len() == 1 {
                assert(split_labels(s).len() == 1);
                assert(join_labels(split_labels(s)) == first);
                assert(join_labels(r) == r[0]);
                assert(join_labels(split_labels(s)) =~= s);
            } else {
                assert(split_labels(s).len() >= 2);
                assert(split_labels(s)[0] == first);
                assert(split_labels(s).drop_first() =~= r.drop_first());
                assert(join_labels(split_labels(s)) == first + seq![dot()]
                    + join_labels(r.drop_first()));
                assert(join_labels(r) == r[0] + seq![dot()] + join_labels(r.drop_first()));
                assert(join_labels(split_labels(s)) =~= seq![s[0]] + join_labels(r));
                assert(join_labels(split_labels(s)) =~= s);
            }
        }
    }
}

/// Appending one label to a sequence appends its wire form at the end.
pub proof fn lemma_wire_labels_push(ls: Seq<Seq<u8>>, l: Seq<u8>)
    ensures
        wire_labels(ls.push(l)) == wire_labels(ls) + seq![l.len() as u8] + l,
    decreases ls.len(),
{
    if ls.len() == 0 {
        assert(wire_labels(Seq::<Seq<u8>>::empty()) == Seq::<u8>::empty());
        assert(ls.push(l)[0] == l);
        assert(ls.push(l).drop_first() =~= Seq::<Seq<u8>>::empty());
        assert(wire_labels(ls.push(l)) == seq![l.len() as u8] + l + wire_labels(
            Seq::<Seq<u8>>::empty(),
        ));
        assert(wire_labels(ls.push(l)) =~= wire_labels(ls) + seq![l.len() as u8] + l);
    } else {
        assert(ls.push(l).drop_first() =~= ls.drop_first().push(l));
        lemma_wire_labels_push(ls.drop_first(), l);
        assert(ls.push(l)[0] == ls[0]);
        assert(wire_labels(ls.push(l)) =~= wire_labels(ls) + seq![l.len() as u8] + l);
    }
}

/// Appending one label to a sequence extends the joined name by a dot
/// and the label, unless the sequence was empty.
pub proof fn lemma_join_labels_push(ls: Seq<Seq<u8>>, l: Seq<u8>)
    ensures
        ls.len() == 0 ==> join_labels(ls.push(l)) == l,
        ls.len() > 0 ==> join_labels(ls.push(l)) == join_labels(ls) + seq![dot()] + l,
    decreases ls.len(),
{
    if ls.len() == 0 {
        assert(join_labels(ls.push(l)) == ls.push(l)[0]);
    } else if ls.len() == 1 {
        assert(ls.push(l).drop_first() =~= ls.drop_first().push(l));
        assert(join_labels(ls.push(l)) == ls[0] + seq![dot()] + join_labels(
            ls.drop_first().push(l),
        ));
        assert(ls.drop_first().len() == 0);
        lemma_join_labels_push(ls.drop_first(), l);
        assert(join_labels(ls) == ls[0]);
    } else {
        assert(ls.push(l).drop_first() =~= ls.drop_first().push(l));
        lemma_join_labels_push(ls.drop_first(), l);
        assert(join_labels(ls.push(l)) == ls[0] + seq![dot()] + (join_labels(ls.drop_first())
            + seq![dot()] + l));
        assert(join_labels(ls.push(l)) =~= join_labels(ls) + seq![dot()] + l);
    }
}

/// The dot-separated pieces of a textual name, as byte vectors.
pub fn split_name(name: &Vec<u8>) -> (r: Vec<Vec<u8>>)
    ensures
        r@.map_values(|l: Vec<u8>| l@) == split_labels(name@),
{
    let n: usize = name.len();
    let mut labels: Vec<Vec<u8>> = Vec::new();
    let mut cur: Vec<u8> = Vec::new();
    let mut i: usize = 0;
    while i < n
        invariant
            n == name@.len(),
            i <= n,
            labels@.map_values(|l: Vec<u8>| l@).push(cur@) =~= split_labels(
                name@.take(i as int),
            ),
        decreases n - i,
    {
        let ghost prefix = name@.take(i as int);
        let b = name[i];
        if b == 46u8 {
            labels.push(cur);
            cur = Vec::new();
        } else {
            cur.push(b);
        }
        proof {
            lemma_split_take_step(name@, i as int);
            assert(labels@.map_values(|l: Vec<u8>| l@).push(cur@) =~= split_labels(
                name@.take(i + 1),
            ));
        }
        i = i + 1;
    }
    labels.push(cur);
    proof {
        assert(name@.take(n as int) =~= name@);
        assert(labels@.map_values(|l: Vec<u8>| l@) =~= split_labels(name@));
    }
    labels
}

/// Reading one more byte of a name extends its last label, or opens a
/// fresh empty one when the byte is a dot.
pub proof fn lemma_split_take_step(s: Seq<u8>, i: int)
    requires
        0 <= i < s.len(),
    ensures
        s[i] == dot() ==> split_labels(s.take(i + 1)) == split_labels(s.take(i)) + seq![
            Seq::<u8>::empty(),
        ],
        s[i] != dot() ==> split_labels(s.take(i + 1)) == split_labels(s.take(i)).update(
            split_labels(s.take(i)).len() - 1,
            split_labels(s.take(i)).last().push(s[i]),
        ),
    decreases i,
{
    lemma_split_nonempty(s.take(i));
    if i == 0 {
        assert(s.take(0) =~= Seq::<u8>::empty());
        assert(s.take(1) =~= seq![s[0]]);
        if s[i] == dot() {
            assert(seq![s[0]].drop_first() =~= Seq::<u8>::empty());
            assert(split_labels(s.take(1)) =~= split_labels(s.take(0)) + seq![
                Seq::<u8>::empty(),
            ]);
        } else {
            let rest = split_labels(seq![s[0]].drop_first());
            assert(seq![s[0]].drop_first() =~= Seq::<u8>::empty());
            assert(split_labels(s.take(1)) == seq![seq![s[0]] + rest[0]] + rest.drop_first());
            assert(rest[0] =~= Seq::<u8>::empty());
            assert(rest.drop_first() =~= Seq::<Seq<u8>>::empty());
            assert(split_labels(s.take(1)) =~= split_labels(s.take(0)).update(
                0,
                split_labels(s.take(0)).last().push(s[0]),
            ));
        }
    } else {
        let t1 = s.take(i + 1);
        let t0 = s.take(i);
        assert(t1[0] == s[0] && t0[0] == s[0]);
        assert(t1.drop_first() =~= s.drop_first().take(i));
        assert(t0.drop_first() =~= s.drop_first().take(i - 1));
        assert(s.drop_first()[i - 1] == s[i]);
        lemma_split_take_step(s.drop_first(), i - 1);
        lemma_split_nonempty(s.drop_first().take(i - 1));
        let r0 = split_labels(s.drop_first().take(i - 1));
        let r1 = split_labels(s.drop_first().take(i));
        if s[0] == dot() {
            assert(split_labels(t1) == seq![Seq::<u8>::empty()] + r1);
            assert(split_labels(t0) == seq![Seq::<u8>::empty()] + r0);
            if s[i] == dot() {
                assert(split_labels(t1) =~= split_labels(t0) + seq![Seq::<u8>::empty()]);
            } else {
                assert(r1 == r0.update(r0.len() - 1, r0.last().push(s[i])));
                assert(split_labels(t0).last() == r0.last());
                assert(split_labels(t1) =~= split_labels(t0).update(
                    split_labels(t0).len() - 1,
                    split_labels(t0).last().push(s[i]),
                ));
            }
        } else {
            assert(split_labels(t1) == seq![seq![s[0]] + r1[0]] + r1.drop_first());
            assert(split_labels(t0) == seq![seq![s[0]] + r0[0]] + r0.drop_first());
            if s[i] == dot() {
                assert(r1 == r0 + seq![Seq::<u8>::empty()]);
                if r0.len() == 1 {
                    assert(r1[0] == r0[0]);
                    assert(r1.drop_first() =~= r0.drop_first() + seq![Seq::<u8>::empty()]);
                    assert(split_labels(t1) =~= split_labels(t0) + seq![Seq::<u8>::empty()]);
                } else {
                    assert(r1[0] == r0[0]);
                    assert(r1.drop_first() =~= r0.drop_first() + seq![Seq::<u8>::empty()]);
                    assert(split_labels(t1) =~= split_labels(t0) + seq![Seq::<u8>::empty()]);
                }
            } else {
                assert(r1 == r0.update(r0.len() - 1, r0.last().push(s[i])));
                if r0.len() == 1 {
                    assert(r1[0] == r0[0].push(s[i]));
                    assert(r1.drop_first() =~= r0.drop_first());
                    assert(split_labels(t0).len() == 1);
                    assert(split_labels(t0).last() == seq![s[0]] + r0[0]);
                    assert((seq![s[0]] + r0[0]).push(s[i]) =~= seq![s[0]] + r0[0].push(s[i]));
                    assert(split_labels(t1) =~= split_labels(t0).update(
                        split_labels(t0).len() - 1,
                        split_labels(t0).last().push(s[i]),
                    ));
                } else {
                    assert(r1[0] == r0[0]);
                    assert(r1.drop_first() =~= r0.drop_first().update(
                        r0.drop_first().len() - 1,
                        r0.drop_first().last().push(s[i]),
                    ));
                    assert(split_labels(t0).last() == r0.last());
                    assert(split_labels(t1) =~= split_labels(t0).update(
                        split_labels(t0).len() - 1,
                        split_labels(t0).last().push(s[i]),
                    ));
                }
            }
        }
    }
}

} // verus!

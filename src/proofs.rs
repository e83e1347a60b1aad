//! Properties of the codec: what decoding gives back from what encoding
//! wrote, how compression pointers read, and that record counts are exact.
use vstd::prelude::*;
use vstd::utf8::{encode_utf8_decode_utf8, encode_utf8_valid_utf8};

use crate::header::{header_from_wire, header_wire, lemma_header_round_trip, HEADER_LEN};
use crate::message::{
    answers_wire, continue_name, message_wire, parse_answer_at, parse_answers, parse_message,
    parse_name, parse_question_at, parse_questions, questions_wire, walk_name, MessageView,
    ParseError,
};
use crate::name::{
    label_bytes, labels_round_trip, labels_wire, lemma_labels_wire_concat, lemma_labels_wire_first,
    lemma_name_wire_first_byte, name_wire,
};
use crate::record::{answer_wire, question_wire, AnswerView, QuestionView};
use crate::wire::{be16, be32, lemma_be16_round_trip, lemma_be32_round_trip};

verus! {

/// The wire form of a question section starts with its first question.
pub proof fn lemma_questions_wire_first(qs: Seq<QuestionView>)
    requires
        qs.len() > 0,
    ensures
        questions_wire(qs) == question_wire(qs[0]) + questions_wire(qs.drop_first()),
{
    let f = |x: QuestionView| question_wire(x);
    assert(qs.map_values(f).drop_first() =~= qs.drop_first().map_values(f));
}

/// The wire form of an answer section starts with its first record.
pub proof fn lemma_answers_wire_first(ans: Seq<AnswerView>)
    requires
        ans.len() > 0,
    ensures
        answers_wire(ans) == answer_wire(ans[0]) + answers_wire(ans.drop_first()),
{
    let f = |x: AnswerView| answer_wire(x);
    assert(ans.map_values(f).drop_first() =~= ans.drop_first().map_values(f));
}

/// Plain labels at `pos` are read back as themselves, and reading goes on
/// after them.
pub proof fn lemma_walk_plain_labels(data: Seq<u8>, pos: int, pre: Seq<Seq<char>>, jumps: nat)
    requires
        0 <= pos,
        pos + labels_wire(pre).len() <= data.len(),
        data.subrange(pos, pos + labels_wire(pre).len()) == labels_wire(pre),
        labels_round_trip(pre),
    ensures
        walk_name(data, pos, jumps) == continue_name(
            pre,
            None,
            labels_wire(pre).len() as int,
            walk_name(data, pos + labels_wire(pre).len(), jumps),
        ),
    decreases pre.len(),
{
    let w = labels_wire(pre);
    if pre.len() == 0 {
        assert(w =~= Seq::<u8>::empty());
        let rest = walk_name(data, pos, jumps);
        if rest is Ok {
            assert(pre + rest->Ok_0.0 =~= rest->Ok_0.0);
        }
    } else {
        let l = pre[0];
        let tail = pre.drop_first();
        let k = label_bytes(l).len() as int;
        assert(1 <= label_bytes(pre[0]).len() <= 0xBF);
        lemma_labels_wire_first(pre);
        assert(data[pos] == w[0]);
        assert(w[0] == k as u8);
        let end = pos + 1 + k;
        assert(data.subrange(pos + 1, end) =~= w.subrange(1, 1 + k));
        assert(w.subrange(1, 1 + k) =~= label_bytes(l));
        encode_utf8_valid_utf8(l);
        encode_utf8_decode_utf8(l);
        assert(labels_round_trip(tail)) by {
            assert forall|i: int| 0 <= i < tail.len() implies 1 <= #[trigger] label_bytes(
                tail[i],
            ).len() <= 0xBF by {
                assert(tail[i] == pre[i + 1]);
            }
        }
        let tw = labels_wire(tail);
        assert(data.subrange(end, end + tw.len()) =~= w.subrange(1 + k, w.len() as int));
        assert(w.subrange(1 + k, w.len() as int) =~= tw);
        lemma_walk_plain_labels(data, end, tail, jumps);
        let rest = walk_name(data, pos + w.len(), jumps);
        if rest is Ok {
            assert(seq![l] + (tail + rest->Ok_0.0) =~= pre + rest->Ok_0.0);
        }
    }
}

/// An uncompressed name at `pos` is read back as itself, taking exactly its
/// wire length.
pub proof fn lemma_name_round_trip(data: Seq<u8>, pos: int, ls: Seq<Seq<char>>, jumps: nat)
    requires
        0 <= pos,
        pos + name_wire(ls).len() <= data.len(),
        data.subrange(pos, pos + name_wire(ls).len()) == name_wire(ls),
        labels_round_trip(ls),
    ensures
        walk_name(data, pos, jumps) == Ok::<_, ParseError>((ls, name_wire(ls).len() as int)),
{
    let lw = labels_wire(ls);
    assert(data.subrange(pos, pos + lw.len()) =~= name_wire(ls).subrange(0, lw.len() as int));
    assert(name_wire(ls).subrange(0, lw.len() as int) =~= lw);
    lemma_walk_plain_labels(data, pos, ls, jumps);
    assert(data[pos + lw.len()] == name_wire(ls)[lw.len() as int]);
    assert(ls + Seq::<Seq<char>>::empty() =~= ls);
}

/// All the names of a message read back as themselves, and each record's
/// data fits its length field.
pub open spec fn message_round_trips(m: MessageView) -> bool {
    &&& m.header.is_valid()
    &&& m.header.z == 0
    &&& m.header.qd_count == m.questions.len()
    &&& m.header.an_count == m.answers.len()
    &&& forall|i: int| 0 <= i < m.questions.len() ==> labels_round_trip(#[trigger] m.questions[i].name)
    &&& forall|i: int|
        0 <= i < m.answers.len() ==> labels_round_trip(#[trigger] m.answers[i].name)
            && m.answers[i].data.len() <= 0xFFFF
}

/// A question at `pos` is read back as itself.
pub proof fn lemma_question_round_trip(data: Seq<u8>, pos: int, q: QuestionView)
    requires
        0 <= pos,
        pos + question_wire(q).len() <= data.len(),
        data.subrange(pos, pos + question_wire(q).len()) == question_wire(q),
        labels_round_trip(q.name),
    ensures
        parse_question_at(data, pos) == Ok::<_, ParseError>(
            (q, pos + question_wire(q).len()),
        ),
{
    let w = question_wire(q);
    let n = name_wire(q.name).len() as int;
    assert(data.subrange(pos, pos + n) =~= w.subrange(0, n));
    assert(w.subrange(0, n) =~= name_wire(q.name));
    lemma_name_round_trip(data, pos, q.name, data.len());
    let p = pos + n;
    assert(data.subrange(p, p + 2) =~= w.subrange(n, n + 2));
    assert(data.subrange(p + 2, p + 4) =~= w.subrange(n + 2, n + 4));
    assert(w.subrange(n, n + 2) =~= be16(q.qtype));
    assert(w.subrange(n + 2, n + 4) =~= be16(q.class));
    lemma_be16_round_trip(q.qtype, data, p);
    lemma_be16_round_trip(q.class, data, p + 2);
}

/// A resource record at `pos` is read back as itself.
pub proof fn lemma_answer_round_trip(data: Seq<u8>, pos: int, a: AnswerView)
    requires
        0 <= pos,
        pos + answer_wire(a).len() <= data.len(),
        data.subrange(pos, pos + answer_wire(a).len()) == answer_wire(a),
        labels_round_trip(a.name),
        a.data.len() <= 0xFFFF,
    ensures
        parse_answer_at(data, pos) == Ok::<_, ParseError>((a, pos + answer_wire(a).len())),
{
    let w = answer_wire(a);
    let n = name_wire(a.name).len() as int;
    assert(data.subrange(pos, pos + n) =~= w.subrange(0, n));
    assert(w.subrange(0, n) =~= name_wire(a.name));
    lemma_name_round_trip(data, pos, a.name, data.len());
    let p = pos + n;
    assert(data.subrange(p, p + 2) =~= w.subrange(n, n + 2));
    assert(data.subrange(p + 2, p + 4) =~= w.subrange(n + 2, n + 4));
    assert(data.subrange(p + 4, p + 8) =~= w.subrange(n + 4, n + 8));
    assert(data.subrange(p + 8, p + 10) =~= w.subrange(n + 8, n + 10));
    assert(data.subrange(p + 10, p + 10 + a.data.len()) =~= w.subrange(
        n + 10,
        n + 10 + a.data.len(),
    ));
    assert(w.subrange(n, n + 2) =~= be16(a.atype));
    assert(w.subrange(n + 2, n + 4) =~= be16(a.class));
    assert(w.subrange(n + 4, n + 8) =~= be32(a.ttl));
    assert(w.subrange(n + 8, n + 10) =~= be16(a.data.len() as u16));
    lemma_be16_round_trip(a.atype, data, p);
    lemma_be16_round_trip(a.class, data, p + 2);
    lemma_be32_round_trip(a.ttl, data, p + 4);
    lemma_be16_round_trip(a.data.len() as u16, data, p + 8);
    assert(data.subrange(p + 10, p + 10 + a.data.len()) =~= a.data);
}

/// A question section at `pos` is read back as itself.
pub proof fn lemma_questions_round_trip(data: Seq<u8>, pos: int, qs: Seq<QuestionView>)
    requires
        0 <= pos,
        pos + questions_wire(qs).len() <= data.len(),
        data.subrange(pos, pos + questions_wire(qs).len()) == questions_wire(qs),
        forall|i: int| 0 <= i < qs.len() ==> labels_round_trip(#[trigger] qs[i].name),
    ensures
        parse_questions(data, pos, qs.len()) == Ok::<_, ParseError>(
            (qs, pos + questions_wire(qs).len()),
        ),
    decreases qs.len(),
{
    let w = questions_wire(qs);
    if qs.len() == 0 {
        assert(w =~= Seq::<u8>::empty());
        assert(qs =~= Seq::<QuestionView>::empty());
    } else {
        lemma_questions_wire_first(qs);
        let q = qs[0];
        let tail = qs.drop_first();
        let n = question_wire(q).len() as int;
        assert(data.subrange(pos, pos + n) =~= w.subrange(0, n));
        assert(w.subrange(0, n) =~= question_wire(q));
        lemma_question_round_trip(data, pos, q);
        assert(data.subrange(pos + n, pos + w.len()) =~= w.subrange(n, w.len() as int));
        assert(w.subrange(n, w.len() as int) =~= questions_wire(tail));
        assert forall|i: int| 0 <= i < tail.len() implies labels_round_trip(
            #[trigger] tail[i].name,
        ) by {
            assert(tail[i] == qs[i + 1]);
        }
        lemma_questions_round_trip(data, pos + n, tail);
        assert(seq![q] + tail =~= qs);
    }
}

/// An answer section at `pos` is read back as itself.
pub proof fn lemma_answers_round_trip(data: Seq<u8>, pos: int, ans: Seq<AnswerView>)
    requires
        0 <= pos,
        pos + answers_wire(ans).len() <= data.len(),
        data.subrange(pos, pos + answers_wire(ans).len()) == answers_wire(ans),
        forall|i: int|
            0 <= i < ans.len() ==> labels_round_trip(#[trigger] ans[i].name) && ans[i].data.len()
                <= 0xFFFF,
    ensures
        parse_answers(data, pos, ans.len()) == Ok::<_, ParseError>(
            (ans, pos + answers_wire(ans).len()),
        ),
    decreases ans.len(),
{
    let w = answers_wire(ans);
    if ans.len() == 0 {
        assert(w =~= Seq::<u8>::empty());
        assert(ans =~= Seq::<AnswerView>::empty());
    } else {
        lemma_answers_wire_first(ans);
        let a = ans[0];
        let tail = ans.drop_first();
        let n = answer_wire(a).len() as int;
        assert(data.subrange(pos, pos + n) =~= w.subrange(0, n));
        assert(w.subrange(0, n) =~= answer_wire(a));
        lemma_answer_round_trip(data, pos, a);
        assert(data.subrange(pos + n, pos + w.len()) =~= w.subrange(n, w.len() as int));
        assert(w.subrange(n, w.len() as int) =~= answers_wire(tail));
        assert forall|i: int| 0 <= i < tail.len() implies labels_round_trip(
            #[trigger] tail[i].name,
        ) && tail[i].data.len() <= 0xFFFF by {
            assert(tail[i] == ans[i + 1]);
        }
        lemma_answers_round_trip(data, pos + n, tail);
        assert(seq![a] + tail =~= ans);
    }
}

/// Decoding the encoding of a message gives back its header, its questions
/// (name, type, class) and its answers (name, type, class, time to live,
/// data), for a message whose header is valid, whose reserved bits are zero,
/// whose counts match its sections, and whose labels are plain: each of 1 to
/// `0xBF` bytes, so that none reads as a terminator or a pointer.
pub proof fn lemma_message_round_trip(m: MessageView)
    requires
        message_round_trips(m),
    ensures
        parse_message(message_wire(m)) == Ok::<_, ParseError>(m),
{
    let data = message_wire(m);
    let hw = header_wire(m.header);
    let qw = questions_wire(m.questions);
    let aw = answers_wire(m.answers);
    lemma_header_round_trip(m.header);
    assert(header_from_wire(data) == header_from_wire(hw));
    let section = data.subrange(HEADER_LEN as int, data.len() as int);
    assert(section =~= qw + aw);
    assert(section.subrange(0, qw.len() as int) =~= qw);
    lemma_questions_round_trip(section, 0, m.questions);
    assert(section.subrange(qw.len() as int, (qw.len() + aw.len()) as int) =~= aw);
    lemma_answers_round_trip(section, qw.len() as int, m.answers);
}

/// A name made of plain labels followed by a compression pointer reads as
/// those labels followed by the uncompressed name that the pointer reaches;
/// the reader of the enclosing record advances past the pointer's two bytes.
/// Encoding the name read gives its uncompressed form, not the bytes read.
pub proof fn lemma_compressed_name(
    data: Seq<u8>,
    pos: int,
    pre: Seq<Seq<char>>,
    target: int,
    ls: Seq<Seq<char>>,
)
    requires
        0 <= pos,
        0 <= target,
        pos + labels_wire(pre).len() + 2 <= data.len(),
        data.subrange(pos, pos + labels_wire(pre).len()) == labels_wire(pre),
        labels_round_trip(pre),
        data[pos + labels_wire(pre).len()] >= 0xC0,
        (data[pos + labels_wire(pre).len()] & 0x3F) * 0x100 + data[pos + labels_wire(pre).len() + 1]
            == target + HEADER_LEN,
        target + name_wire(ls).len() <= data.len(),
        data.subrange(target, target + name_wire(ls).len()) == name_wire(ls),
        labels_round_trip(ls),
    ensures
        parse_name(data, pos) == Ok::<_, ParseError>(
            (pre + ls, labels_wire(pre).len() + 2int),
        ),
        name_wire(pre + ls) != data.subrange(pos, pos + labels_wire(pre).len() + 2),
{
    let p = pos + labels_wire(pre).len();
    lemma_walk_plain_labels(data, pos, pre, data.len());
    lemma_name_round_trip(data, target, ls, (data.len() - 1) as nat);
    let both = pre + ls;
    assert(labels_round_trip(both)) by {
        assert forall|i: int| 0 <= i < both.len() implies 1 <= #[trigger] label_bytes(
            both[i],
        ).len() <= 0xBF by {
            if i < pre.len() {
                assert(both[i] == pre[i]);
            } else {
                assert(both[i] == ls[i - pre.len()]);
            }
        }
    }
    lemma_labels_wire_concat(pre, ls);
    lemma_name_wire_first_byte(ls);
    let lp = labels_wire(pre).len() as int;
    assert(name_wire(both)[lp] == name_wire(ls)[0]);
    assert(data.subrange(pos, p + 2)[lp] == data[p]);
}

/// A question section that reads successfully holds exactly `count` questions.
pub proof fn lemma_questions_count(data: Seq<u8>, pos: int, count: nat)
    ensures
        parse_questions(data, pos, count) matches Ok((qs, _)) ==> qs.len() == count,
    decreases count,
{
    if count > 0 && pos < data.len() && parse_question_at(data, pos) is Ok {
        lemma_questions_count(data, parse_question_at(data, pos)->Ok_0.1, (count - 1) as nat);
    }
}

/// An answer section that reads successfully holds exactly `count` records.
pub proof fn lemma_answers_count(data: Seq<u8>, pos: int, count: nat)
    ensures
        parse_answers(data, pos, count) matches Ok((ans, _)) ==> ans.len() == count,
    decreases count,
{
    if count > 0 && pos < data.len() && parse_answer_at(data, pos) is Ok {
        lemma_answers_count(data, parse_answer_at(data, pos)->Ok_0.1, (count - 1) as nat);
    }
}

/// Parsing never truncates silently: a buffer that parses holds exactly as
/// many questions and answers as its header declares, so one that holds
/// fewer fails.
pub proof fn lemma_counts_are_exact(data: Seq<u8>)
    ensures
        parse_message(data) matches Ok(m) ==> m.questions.len() == m.header.qd_count
            && m.answers.len() == m.header.an_count,
{
    if data.len() >= HEADER_LEN {
        let header = header_from_wire(data);
        let section = data.subrange(HEADER_LEN as int, data.len() as int);
        lemma_questions_count(section, 0, header.qd_count as nat);
        let qs = parse_questions(section, 0, header.qd_count as nat);
        if qs is Ok {
            lemma_answers_count(section, qs->Ok_0.1, header.an_count as nat);
        }
    }
}

} // verus!

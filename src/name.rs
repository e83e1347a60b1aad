//! Domain names: labels, label sequences, and their wire form.
use vstd::prelude::*;
use vstd::seq_lib::lemma_flatten_concat;
use vstd::utf8::encode_utf8;

use crate::wire::append_bytes;

verus! {

/// The longest label that a length byte can announce without being read as
/// a compression pointer.
pub const MAX_PLAIN_LABEL_LEN: u8 = 0xBF;

/// The bytes of a label's text.
pub open spec fn label_bytes(l: Seq<char>) -> Seq<u8> {
    encode_utf8(l)
}

/// A label's text fits the one length byte in front of it.
pub open spec fn label_fits(l: Seq<char>) -> bool {
    label_bytes(l).len() <= 255
}

/// A label in its wire form: its length, then its bytes.
pub open spec fn label_wire(l: Seq<char>) -> Seq<u8> {
    seq![label_bytes(l).len() as u8] + label_bytes(l)
}

/// The labels of a name, one after another, without the terminator.
pub open spec fn labels_wire(ls: Seq<Seq<char>>) -> Seq<u8> {
    ls.map_values(|l: Seq<char>| label_wire(l)).flatten()
}

/// A name in its uncompressed wire form: its labels, then a zero byte.
pub open spec fn name_wire(ls: Seq<Seq<char>>) -> Seq<u8> {
    labels_wire(ls) + seq![0u8]
}

/// Each label is non-empty and short enough to read back as a plain label
/// (an empty one would read as the terminator, a longer one as a pointer).
pub open spec fn labels_round_trip(ls: Seq<Seq<char>>) -> bool {
    forall|i: int|
        0 <= i < ls.len() ==> 1 <= #[trigger] label_bytes(ls[i]).len() <= MAX_PLAIN_LABEL_LEN
}

/// Appending a label to a name appends its wire form.
pub proof fn lemma_labels_wire_push(ls: Seq<Seq<char>>, l: Seq<char>)
    ensures
        labels_wire(ls.push(l)) == labels_wire(ls) + label_wire(l),
{
    let f = |x: Seq<char>| label_wire(x);
    assert(ls.push(l).map_values(f) =~= ls.map_values(f).push(label_wire(l)));
    ls.map_values(f).lemma_flatten_push(label_wire(l));
}

/// The wire form of a name starts with the wire form of its first label.
pub proof fn lemma_labels_wire_first(ls: Seq<Seq<char>>)
    requires
        ls.len() > 0,
    ensures
        labels_wire(ls) == label_wire(ls[0]) + labels_wire(ls.drop_first()),
{
    let f = |x: Seq<char>| label_wire(x);
    assert(ls.map_values(f).drop_first() =~= ls.drop_first().map_values(f));
}

/// The wire form of two names' labels together is the one after the other.
pub proof fn lemma_labels_wire_concat(a: Seq<Seq<char>>, b: Seq<Seq<char>>)
    ensures
        labels_wire(a + b) == labels_wire(a) + labels_wire(b),
{
    let f = |x: Seq<char>| label_wire(x);
    assert((a + b).map_values(f) =~= a.map_values(f) + b.map_values(f));
    lemma_flatten_concat(a.map_values(f), b.map_values(f));
}

/// A name whose labels read back as plain labels starts with a byte that is
/// either its terminator or a plain label length, never a pointer.
pub proof fn lemma_name_wire_first_byte(ls: Seq<Seq<char>>)
    requires
        labels_round_trip(ls),
    ensures
        name_wire(ls)[0] <= MAX_PLAIN_LABEL_LEN,
{
    if ls.len() > 0 {
        lemma_labels_wire_first(ls);
        assert(label_bytes(ls[0]).len() <= MAX_PLAIN_LABEL_LEN);
    } else {
        assert(labels_wire(ls) =~= Seq::<u8>::empty());
    }
}

/// One segment of a domain name.
#[derive(Debug)]
pub struct Label {
    content: String,
}

impl View for Label {
    type V = Seq<char>;

    closed spec fn view(&self) -> Seq<char> {
        self.content@
    }
}

impl Clone for Label {
    fn clone(&self) -> (r: Label)
        ensures
            r@ == self@,
    {
        proof {
            use_type_invariant(self);
        }
        Label { content: self.content.clone() }
    }
}

impl Label {
    #[verifier::type_invariant]
    spec fn fits(self) -> bool {
        label_fits(self.content@)
    }

    /// A label with the given text, which must fit in 255 bytes.
    pub fn new(content: &str) -> (r: Label)
        requires
            label_fits(content@),
        ensures
            r@ == content@,
    {
        Label { content: content.to_owned() }
    }

    pub fn get_content(&self) -> (r: &str)
        ensures
            r@ == self@,
            label_fits(r@),
    {
        proof {
            use_type_invariant(self);
        }
        self.content.as_str()
    }

    /// The length byte followed by the label's bytes.
    pub fn encode(&self) -> (r: Vec<u8>)
        ensures
            r@ == label_wire(self@),
            label_fits(self@),
    {
        proof {
            use_type_invariant(self);
        }
        let bytes: &[u8] = self.content.as_str().as_bytes();
        let mut result: Vec<u8> = Vec::new();
        result.push(bytes.len() as u8);
        append_bytes(&mut result, bytes);
        result
    }
}

/// A domain name: its labels in order, e.g. `example` then `com`.
#[derive(Clone, Debug)]
pub struct LabelSequence {
    labels: Vec<Label>,
}

impl View for LabelSequence {
    type V = Seq<Seq<char>>;

    closed spec fn view(&self) -> Seq<Seq<char>> {
        self.labels@.map_values(|l: Label| l@)
    }
}

impl LabelSequence {
    pub fn new(labels: Vec<Label>) -> (r: LabelSequence)
        ensures
            r@ == labels@.map_values(|l: Label| l@),
    {
        LabelSequence { labels }
    }

    pub fn get_labels(&self) -> (r: &Vec<Label>)
        ensures
            r@.map_values(|l: Label| l@) == self@,
    {
        &self.labels
    }

    /// The name's uncompressed wire form: each label, then a zero byte.
    /// Names are never compressed on encode.
    pub fn encode(&self) -> (r: Vec<u8>)
        ensures
            r@ == name_wire(self@),
    {
        let mut result: Vec<u8> = Vec::new();
        let mut i: usize = 0;
        while i < self.labels.len()
            invariant
                i <= self.labels@.len(),
                result@ == labels_wire(self@.take(i as int)),
            decreases self.labels@.len() - i,
        {
            let mut bytes = self.labels[i].encode();
            proof {
                assert(self@.take(i + 1) =~= self@.take(i as int).push(self@[i as int]));
                lemma_labels_wire_push(self@.take(i as int), self@[i as int]);
            }
            result.append(&mut bytes);
            i = i + 1;
        }
        assert(self@.take(i as int) =~= self@);
        result.push(0u8);
        result
    }
}

} // verus!

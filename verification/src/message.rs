//! Questions and wire messages.
//!
//! A message is kept as the bytes that travel. Only the fixed header is ever
//! looked into: the identifier, the response bit and the truncation bit.

use vstd::prelude::*;
use crate::error::ComposeError;
use crate::error::Error;

verus! {

/// The length of the fixed header that starts every message.
pub const HEADER_LEN: usize = 12;

/// The greatest length of a message.
pub const MAX_MESSAGE_LEN: usize = 65535;

/// The greatest length of a label.
pub const MAX_LABEL_LEN: usize = 63;

/// The greatest length of an encoded name, the closing zero included.
pub const MAX_NAME_LEN: usize = 255;

/// A question: a name as a list of labels, a record type and a class.
#[derive(Debug)]
pub struct Question {
    pub name: Vec<Vec<u8>>,
    pub qtype: u16,
    pub qclass: u16,
}

/// A question as a mathematical value.
pub struct QuestionView {
    pub labels: Seq<Seq<u8>>,
    pub qtype: u16,
    pub qclass: u16,
}

impl View for Question {
    type V = QuestionView;

    open spec fn view(&self) -> QuestionView {
        QuestionView {
            labels: Seq::new(self.name@.len(), |i: int| self.name@[i]@),
            qtype: self.qtype,
            qclass: self.qclass,
        }
    }
}

impl Question {
    /// A question for `name`, `qtype` and `qclass`.
    pub fn new(name: Vec<Vec<u8>>, qtype: u16, qclass: u16) -> (q: Question)
        ensures
            q.name == name,
            q.qtype == qtype,
            q.qclass == qclass,
    {
        Question { name, qtype, qclass }
    }
}

/// The two bytes of `x`, high byte first.
pub open spec fn be16(x: u16) -> Seq<u8> {
    seq![(x >> 8) as u8, (x & 0xff) as u8]
}

/// The number that the bytes `hi` and `lo` spell, high byte first.
pub open spec fn from_be16(hi: u8, lo: u8) -> u16 {
    ((hi as u16) << 8) | (lo as u16)
}

/// The encoding of the first `n` labels, each behind its length.
pub open spec fn labels_wire(labels: Seq<Seq<u8>>, n: int) -> Seq<u8>
    decreases n,
{
    if n <= 0 {
        Seq::<u8>::empty()
    } else {
        labels_wire(labels, n - 1) + seq![labels[n - 1].len() as u8] + labels[n - 1]
    }
}

/// What is wrong with a single label, if anything.
pub open spec fn label_error(label: Seq<u8>) -> Option<ComposeError> {
    if label.len() == 0 {
        Some(ComposeError::EmptyLabel)
    } else if label.len() > MAX_LABEL_LEN {
        Some(ComposeError::LongLabel)
    } else {
        None
    }
}

/// The first fault met when the first `n` labels are encoded in order: a
/// faulty label, or the label with which the name, its closing zero
/// counted, grows beyond 255 bytes.
pub open spec fn labels_error(labels: Seq<Seq<u8>>, n: int) -> Option<ComposeError>
    decreases n,
{
    if n <= 0 {
        None
    } else if labels_error(labels, n - 1) is Some {
        labels_error(labels, n - 1)
    } else if label_error(labels[n - 1]) is Some {
        label_error(labels[n - 1])
    } else if labels_wire(labels, n).len() + 1 > MAX_NAME_LEN {
        Some(ComposeError::LongName)
    } else {
        None
    }
}

/// Why `q` cannot be encoded, or `None` if it can.
pub open spec fn compose_error(q: QuestionView) -> Option<ComposeError> {
    labels_error(q.labels, q.labels.len() as int)
}

/// The header of a query: identifier 0, recursion desired, one question.
pub open spec fn query_header() -> Seq<u8> {
    seq![0u8, 0u8, 1u8, 0u8, 0u8, 1u8, 0u8, 0u8, 0u8, 0u8, 0u8, 0u8]
}

/// The wire form of the query that asks `q`.
pub open spec fn query_wire(q: QuestionView) -> Seq<u8> {
    query_header() + labels_wire(q.labels, q.labels.len() as int) + seq![0u8] + be16(q.qtype)
        + be16(q.qclass)
}

/// The identifier in the header of `bytes`.
pub open spec fn wire_id(bytes: Seq<u8>) -> u16 {
    from_be16(bytes[0], bytes[1])
}

/// Whether the header of `bytes` marks a response.
pub open spec fn wire_is_response(bytes: Seq<u8>) -> bool {
    bytes[2] & 0x80 != 0
}

/// Whether the header of `bytes` marks a truncated message.
pub open spec fn wire_is_truncated(bytes: Seq<u8>) -> bool {
    bytes[2] & 0x02 != 0
}

/// `bytes` with the identifier in its header replaced by `id`.
pub open spec fn wire_with_id(bytes: Seq<u8>, id: u16) -> Seq<u8> {
    bytes.update(0, (id >> 8) as u8).update(1, (id & 0xff) as u8)
}

/// Whether `bytes` has the length of a message.
pub open spec fn wire_ok(bytes: Seq<u8>) -> bool {
    HEADER_LEN <= bytes.len() <= MAX_MESSAGE_LEN
}

/// Whether `response` answers `query`: it is a response, carries the
/// query's identifier and its number of questions, and repeats what stands
/// behind the query's header, which is the question.
pub open spec fn wire_answers(response: Seq<u8>, query: Seq<u8>) -> bool {
    &&& wire_is_response(response)
    &&& wire_id(response) == wire_id(query)
    &&& query.len() <= response.len()
    &&& response.subrange(4, 6) == query.subrange(4, 6)
    &&& response.subrange(HEADER_LEN as int, query.len() as int) == query.subrange(
        HEADER_LEN as int,
        query.len() as int,
    )
}

/// Splitting a number into two bytes and joining them gives it back.
pub proof fn lemma_be16_roundtrip(x: u16)
    ensures
        from_be16((x >> 8) as u8, (x & 0xff) as u8) == x,
{
    assert(((((x >> 8) as u8) as u16) << 8) | (((x & 0xff) as u8) as u16) == x) by (bit_vector);
}

/// Joining two bytes and splitting the number gives them back.
pub proof fn lemma_from_be16_parts(hi: u8, lo: u8)
    ensures
        (from_be16(hi, lo) >> 8) as u8 == hi,
        (from_be16(hi, lo) & 0xff) as u8 == lo,
{
    assert(((((hi as u16) << 8) | (lo as u16)) >> 8) as u8 == hi) by (bit_vector);
    assert(((((hi as u16) << 8) | (lo as u16)) & 0xff) as u8 == lo) by (bit_vector);
}

/// A name that can be encoded takes no more than 255 bytes, and the query
/// that asks for it has the length of a message.
pub proof fn lemma_query_wire_ok(q: QuestionView)
    requires
        compose_error(q) is None,
    ensures
        wire_ok(query_wire(q)),
{
    lemma_labels_fit(q.labels, q.labels.len() as int);
}

proof fn lemma_labels_fit(labels: Seq<Seq<u8>>, n: int)
    requires
        0 <= n,
        labels_error(labels, n) is None,
    ensures
        labels_wire(labels, n).len() + 1 <= MAX_NAME_LEN,
    decreases n,
{
    if n > 0 {
        lemma_labels_fit(labels, n - 1);
    }
}

/// Giving a message another identifier changes its first two bytes and
/// nothing else: the flags, the counts and the question stay.
pub proof fn lemma_with_id_keeps_the_rest(bytes: Seq<u8>, id: u16)
    requires
        bytes.len() >= 2,
    ensures
        wire_with_id(bytes, id).len() == bytes.len(),
        wire_with_id(bytes, id).skip(2) == bytes.skip(2),
        wire_id(wire_with_id(bytes, id)) == id,
{
    lemma_be16_roundtrip(id);
    assert(wire_with_id(bytes, id).skip(2) =~= bytes.skip(2));
}

/// The number spelled by two bytes, high byte first.
pub fn read_be16(hi: u8, lo: u8) -> (x: u16)
    ensures
        x == from_be16(hi, lo),
{
    ((hi as u16) << 8) | (lo as u16)
}

/// Appends the two bytes of `x`, high byte first.
pub fn push_be16(out: &mut Vec<u8>, x: u16)
    ensures
        final(out)@ == old(out)@ + be16(x),
{
    out.push((x >> 8) as u8);
    out.push((x & 0xff) as u8);
}

/// Appends a copy of `src`.
pub fn push_all(out: &mut Vec<u8>, src: &Vec<u8>)
    ensures
        final(out)@ == old(out)@ + src@,
{
    let mut i: usize = 0;
    while i < src.len()
        invariant
            i <= src.len(),
            out@ == old(out)@ + src@.subrange(0, i as int),
        decreases src.len() - i,
    {
        out.push(src[i]);
        i += 1;
    }
    assert(src@.subrange(0, src@.len() as int) == src@);
}

/// A wire message: at least a header, at most 65535 bytes.
#[derive(Debug)]
pub struct MessageBuf {
    bytes: Vec<u8>,
}

impl View for MessageBuf {
    type V = Seq<u8>;

    closed spec fn view(&self) -> Seq<u8> {
        self.bytes@
    }
}

impl Clone for MessageBuf {
    fn clone(&self) -> (copy: MessageBuf)
        ensures
            copy@ == self@,
    {
        proof {
            use_type_invariant(self);
        }
        let mut bytes: Vec<u8> = Vec::new();
        push_all(&mut bytes, &self.bytes);
        MessageBuf { bytes }
    }
}

impl MessageBuf {
    #[verifier::type_invariant]
    spec fn well_formed(self) -> bool {
        wire_ok(self.bytes@)
    }

    /// Takes `bytes` as a message. Fails with `Error::Decode` exactly when
    /// they are fewer than a header or more than a message can hold.
    pub fn from_bytes(bytes: Vec<u8>) -> (r: Result<MessageBuf, Error>)
        ensures
            match r {
                Ok(m) => wire_ok(bytes@) && m@ == bytes@,
                Err(e) => !wire_ok(bytes@) && e == Error::Decode,
            },
    {
        if bytes.len() < HEADER_LEN || bytes.len() > MAX_MESSAGE_LEN {
            Err(Error::Decode)
        } else {
            Ok(MessageBuf { bytes })
        }
    }

    /// The query that asks `question`, with identifier 0. Fails exactly when
    /// `compose_error` names a fault, and with that fault.
    pub fn query_from_question(question: &Question) -> (r: Result<MessageBuf, ComposeError>)
        ensures
            match r {
                Ok(m) => compose_error(question@) is None && m@ == query_wire(question@),
                Err(e) => compose_error(question@) == Some(e),
            },
    {
        let ghost labels = question@.labels;
        let mut bytes: Vec<u8> = Vec::new();
        bytes.push(0);
        bytes.push(0);
        bytes.push(1);
        bytes.push(0);
        bytes.push(0);
        bytes.push(1);
        bytes.push(0);
        bytes.push(0);
        bytes.push(0);
        bytes.push(0);
        bytes.push(0);
        bytes.push(0);
        assert(bytes@ == query_header());
        let mut i: usize = 0;
        while i < question.name.len()
            invariant
                i <= question.name.len(),
                labels == question@.labels,
                labels.len() == question.name.len(),
                labels_error(labels, i as int) is None,
                bytes@ == query_header() + labels_wire(labels, i as int),
                labels_wire(labels, i as int).len() + 1 <= MAX_NAME_LEN,
            decreases question.name.len() - i,
        {
            let label = &question.name[i];
            assert(label@ == labels[i as int]);
            let n = label.len();
            if n == 0 {
                proof {
                    lemma_labels_error_stays(labels, i as int + 1, labels.len() as int);
                }
                return Err(ComposeError::EmptyLabel);
            }
            if n > MAX_LABEL_LEN {
                proof {
                    lemma_labels_error_stays(labels, i as int + 1, labels.len() as int);
                }
                return Err(ComposeError::LongLabel);
            }
            if bytes.len() - HEADER_LEN + 1 + n + 1 > MAX_NAME_LEN {
                proof {
                    lemma_labels_error_stays(labels, i as int + 1, labels.len() as int);
                }
                return Err(ComposeError::LongName);
            }
            bytes.push(n as u8);
            push_all(&mut bytes, label);
            i += 1;
        }
        bytes.push(0);
        push_be16(&mut bytes, question.qtype);
        push_be16(&mut bytes, question.qclass);
        Ok(MessageBuf { bytes })
    }

    /// The bytes of the message.
    pub fn as_bytes(&self) -> (bytes: &Vec<u8>)
        ensures
            bytes@ == self@,
    {
        &self.bytes
    }

    /// The message as its bytes.
    pub fn into_bytes(self) -> (bytes: Vec<u8>)
        ensures
            bytes@ == self@,
    {
        self.bytes
    }

    /// The number of bytes.
    pub fn len(&self) -> (n: usize)
        ensures
            n == self@.len(),
            HEADER_LEN <= n <= MAX_MESSAGE_LEN,
    {
        proof {
            use_type_invariant(self);
        }
        self.bytes.len()
    }

    /// The identifier in the header.
    pub fn id(&self) -> (id: u16)
        ensures
            id == wire_id(self@),
    {
        proof {
            use_type_invariant(self);
        }
        read_be16(self.bytes[0], self.bytes[1])
    }

    /// The same message under the identifier `id`.
    pub fn with_id(self, id: u16) -> (m: MessageBuf)
        ensures
            m@ == wire_with_id(self@, id),
            wire_id(m@) == id,
    {
        proof {
            use_type_invariant(&self);
            lemma_be16_roundtrip(id);
        }
        let mut bytes = self.bytes;
        bytes.set(0, (id >> 8) as u8);
        bytes.set(1, (id & 0xff) as u8);
        MessageBuf { bytes }
    }

    /// Whether the header marks a response.
    pub fn is_response(&self) -> (b: bool)
        ensures
            b == wire_is_response(self@),
    {
        proof {
            use_type_invariant(self);
        }
        self.bytes[2] & 0x80 != 0
    }

    /// Whether the header marks the message as truncated.
    pub fn is_truncated(&self) -> (b: bool)
        ensures
            b == wire_is_truncated(self@),
    {
        proof {
            use_type_invariant(self);
        }
        self.bytes[2] & 0x02 != 0
    }

    /// Whether this message answers `query`.
    pub fn answers(&self, query: &MessageBuf) -> (b: bool)
        ensures
            b == wire_answers(self@, query@),
    {
        proof {
            use_type_invariant(self);
            use_type_invariant(query);
        }
        if !self.is_response() || self.id() != query.id() || query.bytes.len() > self.bytes.len() {
            return false;
        }
        same_range(&self.bytes, &query.bytes, 4, 6) && same_range(
            &self.bytes,
            &query.bytes,
            HEADER_LEN,
            query.bytes.len(),
        )
    }
}

/// Whether `a` and `b` hold the same bytes from `lo` up to `hi`.
fn same_range(a: &Vec<u8>, b: &Vec<u8>, lo: usize, hi: usize) -> (same: bool)
    requires
        lo <= hi <= a@.len(),
        hi <= b@.len(),
    ensures
        same == (a@.subrange(lo as int, hi as int) == b@.subrange(lo as int, hi as int)),
{
    let mut i: usize = lo;
    while i < hi
        invariant
            lo <= i <= hi,
            hi <= a@.len(),
            hi <= b@.len(),
            a@.subrange(lo as int, i as int) == b@.subrange(lo as int, i as int),
        decreases hi - i,
    {
        if a[i] != b[i] {
            assert(a@.subrange(lo as int, hi as int)[i - lo] != b@.subrange(lo as int, hi as int)[i
                - lo]);
            return false;
        }
        assert(a@.subrange(lo as int, i + 1) == a@.subrange(lo as int, i as int).push(a@[i as int]));
        assert(b@.subrange(lo as int, i + 1) == b@.subrange(lo as int, i as int).push(b@[i as int]));
        i += 1;
    }
    true
}

/// Once the first `n` labels hold a fault, every longer prefix reports the
/// same fault.
pub proof fn lemma_labels_error_stays(labels: Seq<Seq<u8>>, n: int, m: int)
    requires
        0 <= n <= m,
        labels_error(labels, n) is Some,
    ensures
        labels_error(labels, m) == labels_error(labels, n),
    decreases m - n,
{
    if n < m {
        lemma_labels_error_stays(labels, n, m - 1);
    }
}

} // verus!

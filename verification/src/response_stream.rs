//! Decoders for streamed responses.
//!
//! A response arrives as a sequence of byte chunks. Each decoder keeps the
//! bytes it has not used yet and is driven by two events: a chunk arrived, or
//! the stream ended. Each event yields one [`Step`].

use vstd::prelude::*;
use vstd::utf8::{encode_utf8, valid_utf8};

verus! {

/// The byte that ends a line.
pub const NEW_LINE: u8 = 10u8;

/// What a decoder hands out after an event.
#[derive(Debug)]
pub enum Step {
    /// A piece of text.
    Text(String),
    /// The bytes of one complete JSON value.
    Json(Vec<u8>),
    /// The bytes of a piece of text are not UTF-8.
    InvalidUtf8,
    /// The bytes at the front of the buffer are not JSON.
    InvalidJson,
    /// Nothing yet: more input is needed.
    Pending,
    /// The stream is over.
    Finished,
}

/// What the front of a buffer holds, read as JSON.
#[derive(Clone, Copy, Debug, PartialEq, Eq, Structural)]
pub enum JsonScan {
    /// Nothing but white space.
    Nothing,
    /// A complete value, which ends after this many bytes.
    Value(usize),
    /// The beginning of a value; the input ends inside it.
    Incomplete,
    /// Bytes that begin no JSON value.
    Invalid,
}

/// What `serde_json`'s stream deserializer finds at the front of `buffer`.
pub uninterp spec fn json_scan(buffer: Seq<u8>) -> JsonScan;

/// Asks `serde_json::StreamDeserializer`, reading `serde_json::Value`s from
/// the slice, for its first item. Trusted: the answer depends on the bytes
/// alone, and the offset it reports after a value lies within the slice.
#[verifier::external_body]
fn scan_json(buffer: &Vec<u8>) -> (r: JsonScan)
    ensures
        r == json_scan(buffer@),
        r matches JsonScan::Value(n) ==> n <= buffer@.len(),
{
    let mut iter = serde_json::Deserializer::from_slice(buffer.as_slice()).into_iter::<serde_json::Value>();
    match iter.next() {
        None => JsonScan::Nothing,
        Some(Ok(_)) => JsonScan::Value(iter.byte_offset()),
        Some(Err(e)) => if e.is_eof() {
            JsonScan::Incomplete
        } else {
            JsonScan::Invalid
        },
    }
}

/// Calls `String::from_utf8` on a copy of `bytes`. Trusted: it succeeds
/// exactly on valid UTF-8, and the string it returns encodes to `bytes`.
#[verifier::external_body]
fn string_from_utf8(bytes: &Vec<u8>) -> (r: Option<String>)
    ensures
        match r {
            Some(s) => valid_utf8(bytes@) && encode_utf8(s@) == bytes@,
            None => !valid_utf8(bytes@),
        },
{
    String::from_utf8(bytes.clone()).ok()
}

/// `step` is the text that `bytes` encode, or the report that they encode
/// none.
pub open spec fn is_text_of(step: Step, bytes: Seq<u8>) -> bool {
    if valid_utf8(bytes) {
        step matches Step::Text(t) && encode_utf8(t@) == bytes
    } else {
        step is InvalidUtf8
    }
}

/// `pos` is the place of the first line end in `s`.
pub open spec fn is_first_newline(s: Seq<u8>, pos: int) -> bool {
    &&& 0 <= pos < s.len()
    &&& s[pos] == NEW_LINE
    &&& forall|j: int| 0 <= j < pos ==> s[j] != NEW_LINE
}

/// The place of the first line end in `s`, if it has one.
pub open spec fn first_newline(s: Seq<u8>) -> Option<int> {
    if exists|p: int| is_first_newline(s, p) {
        Some(choose|p: int| is_first_newline(s, p))
    } else {
        None
    }
}

/// A buffer `before` with the scan `scan` of its front becomes `after` and
/// yields `step`: a complete value leaves the buffer and is handed out,
/// invalid bytes are reported, and anything else waits for more input, or
/// ends the stream where no more will come.
pub open spec fn json_settles(before: Seq<u8>, scan: JsonScan, at_end: bool, after: Seq<u8>, step: Step) -> bool {
    match scan {
        JsonScan::Value(n) => {
            &&& step matches Step::Json(v) && v@ == before.subrange(0, n as int)
            &&& after == before.subrange(n as int, before.len() as int)
        },
        JsonScan::Invalid => step is InvalidJson && after == before,
        _ => after == before && if at_end {
            step is Finished
        } else {
            step is Pending
        },
    }
}

/// Appends `bytes` to `buffer`.
fn extend(buffer: &mut Vec<u8>, bytes: &Vec<u8>)
    ensures
        final(buffer)@ == old(buffer)@ + bytes@,
{
    let mut i: usize = 0;
    while i < bytes.len()
        invariant
            i <= bytes.len(),
            buffer@ == old(buffer)@ + bytes@.take(i as int),
        decreases bytes.len() - i,
    {
        buffer.push(bytes[i]);
        i += 1;
        proof {
            assert(buffer@ =~= old(buffer)@ + bytes@.take(i as int));
        }
    }
    proof {
        assert(bytes@.take(bytes.len() as int) =~= bytes@);
    }
}

/// The place of the first line end in `bytes`.
fn find_newline(bytes: &Vec<u8>) -> (r: Option<usize>)
    ensures
        match r {
            Some(p) => first_newline(bytes@) == Some(p as int) && is_first_newline(bytes@, p as int),
            None => first_newline(bytes@) is None,
        },
{
    let mut i: usize = 0;
    while i < bytes.len()
        invariant
            i <= bytes.len(),
            forall|j: int| 0 <= j < i ==> bytes@[j] != NEW_LINE,
        decreases bytes.len() - i,
    {
        if bytes[i] == NEW_LINE {
            proof {
                assert(is_first_newline(bytes@, i as int));
                let p = choose|p: int| is_first_newline(bytes@, p);
                assert(p == i) by {
                    if p < i {
                        assert(bytes@[p] != NEW_LINE);
                    }
                    if i < p {
                        assert(bytes@[i as int] != NEW_LINE);
                    }
                }
            }
            return Some(i);
        }
        i += 1;
    }
    proof {
        assert forall|p: int| !is_first_newline(bytes@, p) by {
            if 0 <= p < bytes@.len() {
                assert(bytes@[p] != NEW_LINE);
            }
        }
    }
    None
}

/// Removes the first `n` bytes of `buffer` and returns them.
fn take_front(buffer: &mut Vec<u8>, n: usize) -> (front: Vec<u8>)
    requires
        n <= old(buffer)@.len(),
    ensures
        front@ == old(buffer)@.subrange(0, n as int),
        final(buffer)@ == old(buffer)@.subrange(n as int, old(buffer)@.len() as int),
{
    let mut rest = buffer.split_off(n);
    std::mem::swap(buffer, &mut rest);
    rest
}

/// The text that `bytes` encode, as a step.
fn text_step(bytes: &Vec<u8>) -> (r: Step)
    ensures
        is_text_of(r, bytes@),
{
    match string_from_utf8(bytes) {
        Some(s) => Step::Text(s),
        None => Step::InvalidUtf8,
    }
}

/// Splits a stream of bytes into lines of text.
pub struct NewlineStream {
    buffer: Vec<u8>,
}

impl View for NewlineStream {
    type V = Seq<u8>;

    /// The bytes that belong to no line handed out so far.
    closed spec fn view(&self) -> Seq<u8> {
        self.buffer@
    }
}

impl NewlineStream {
    /// A decoder that has seen nothing.
    pub fn new() -> (r: Self)
        ensures
            r@ == Seq::<u8>::empty(),
    {
        NewlineStream { buffer: Vec::new() }
    }

    /// How many bytes are kept.
    pub fn buffered(&self) -> (r: usize)
        ensures
            r == self@.len(),
    {
        self.buffer.len()
    }

    /// Takes a chunk. If the bytes kept so far and the chunk together hold a
    /// line end, the bytes before the first one leave the buffer as a line,
    /// the line end is dropped, and what follows is kept. Without a line end
    /// all is kept and nothing is handed out.
    pub fn on_chunk(&mut self, bytes: &Vec<u8>) -> (r: Step)
        ensures
            match first_newline(old(self)@ + bytes@) {
                Some(p) => {
                    &&& is_text_of(r, (old(self)@ + bytes@).subrange(0, p))
                    &&& final(self)@ == (old(self)@ + bytes@).subrange(
                        p + 1,
                        (old(self)@ + bytes@).len() as int,
                    )
                },
                None => r is Pending && final(self)@ == old(self)@ + bytes@,
            },
    {
        extend(&mut self.buffer, bytes);
        let ghost all = self.buffer@;
        match find_newline(&self.buffer) {
            None => Step::Pending,
            Some(pos) => {
                assert(pos < self.buffer.len());
                let mut line = take_front(&mut self.buffer, pos + 1);
                line.pop();
                proof {
                    assert(line@ =~= all.subrange(0, pos as int));
                }
                text_step(&line)
            },
        }
    }

    /// Takes the end of the stream. Bytes that are left are the last line:
    /// it is handed out and the buffer is emptied, or, where the bytes are
    /// not UTF-8, that is reported and they stay. With nothing left the
    /// stream is over.
    pub fn on_end(&mut self) -> (r: Step)
        ensures
            old(self)@.len() == 0 ==> r is Finished && final(self)@ == old(self)@,
            old(self)@.len() != 0 ==> is_text_of(r, old(self)@) && final(self)@ == (if r is Text {
                Seq::<u8>::empty()
            } else {
                old(self)@
            }),
    {
        if self.buffer.len() == 0 {
            Step::Finished
        } else {
            let r = text_step(&self.buffer);
            if let Step::Text(_) = &r {
                self.buffer.clear();
            }
            r
        }
    }
}

/// Splits a stream of bytes into JSON values.
pub struct JsonStream {
    buffer: Vec<u8>,
}

impl View for JsonStream {
    type V = Seq<u8>;

    /// The bytes that belong to no value handed out so far.
    closed spec fn view(&self) -> Seq<u8> {
        self.buffer@
    }
}

impl JsonStream {
    /// A decoder that has seen nothing.
    pub fn new() -> (r: Self)
        ensures
            r@ == Seq::<u8>::empty(),
    {
        JsonStream { buffer: Vec::new() }
    }

    /// How many bytes are kept.
    pub fn buffered(&self) -> (r: usize)
        ensures
            r == self@.len(),
    {
        self.buffer.len()
    }

    /// The bytes that are kept.
    pub fn buffer(&self) -> (r: &Vec<u8>)
        ensures
            r@ == self@,
    {
        &self.buffer
    }

    /// Acts on the scan of the buffer's front.
    pub fn settle(&mut self, scan: JsonScan, at_end: bool) -> (r: Step)
        requires
            scan matches JsonScan::Value(n) ==> n <= old(self)@.len(),
        ensures
            json_settles(old(self)@, scan, at_end, final(self)@, r),
    {
        settle_json(&mut self.buffer, scan, at_end)
    }

    /// Takes a chunk: it is appended to the buffer, and the buffer's front
    /// is scanned and acted on.
    pub fn on_chunk(&mut self, bytes: &Vec<u8>) -> (r: Step)
        ensures
            json_settles(old(self)@ + bytes@, json_scan(old(self)@ + bytes@), false, final(self)@, r),
    {
        extend(&mut self.buffer, bytes);
        let scan = scan_json(&self.buffer);
        self.settle(scan, false)
    }

    /// Takes the end of the stream: with an empty buffer the stream is
    /// over; else the buffer's front is scanned and acted on a last time.
    pub fn on_end(&mut self) -> (r: Step)
        ensures
            old(self)@.len() == 0 ==> r is Finished && final(self)@ == old(self)@,
            old(self)@.len() != 0 ==> json_settles(old(self)@, json_scan(old(self)@), true, final(self)@, r),
    {
        if self.buffer.len() == 0 {
            Step::Finished
        } else {
            let scan = scan_json(&self.buffer);
            self.settle(scan, true)
        }
    }
}

/// Acts on the scan of the front of `buffer`.
fn settle_json(buffer: &mut Vec<u8>, scan: JsonScan, at_end: bool) -> (r: Step)
    requires
        scan matches JsonScan::Value(n) ==> n <= old(buffer)@.len(),
    ensures
        json_settles(old(buffer)@, scan, at_end, final(buffer)@, r),
{
    match scan {
        JsonScan::Value(n) => Step::Json(take_front(buffer, n)),
        JsonScan::Invalid => Step::InvalidJson,
        _ => if at_end {
            Step::Finished
        } else {
            Step::Pending
        },
    }
}

/// Decodes a stream in which a chunk that ends a line is a piece of text
/// and all other chunks together are a sequence of JSON values.
pub struct AnswerStream {
    json_buffer: Vec<u8>,
    finished: bool,
}

impl View for AnswerStream {
    type V = Seq<u8>;

    /// The bytes that belong to no JSON value handed out so far.
    closed spec fn view(&self) -> Seq<u8> {
        self.json_buffer@
    }
}

/// Whether `bytes` ends with a line end.
pub open spec fn ends_line(bytes: Seq<u8>) -> bool {
    bytes.len() > 0 && bytes.last() == NEW_LINE
}

impl AnswerStream {
    /// Whether the decoder has been told to hand out nothing more.
    pub closed spec fn finished(&self) -> bool {
        self.finished
    }

    /// A decoder that has seen nothing.
    pub fn new() -> (r: Self)
        ensures
            r@ == Seq::<u8>::empty(),
            !r.finished(),
    {
        AnswerStream { json_buffer: Vec::new(), finished: false }
    }

    /// How many bytes are kept.
    pub fn buffered(&self) -> (r: usize)
        ensures
            r == self@.len(),
    {
        self.json_buffer.len()
    }

    /// The bytes that are kept.
    pub fn buffer(&self) -> (r: &Vec<u8>)
        ensures
            r@ == self@,
    {
        &self.json_buffer
    }

    /// Takes a chunk. One that ends a line is text and is handed out
    /// without its line end; the buffer stays. Any other is appended to the
    /// buffer, whose front is then scanned and acted on.
    pub fn on_chunk(&mut self, bytes: &Vec<u8>) -> (r: Step)
        ensures
            final(self).finished() == old(self).finished(),
            old(self).finished() ==> r is Finished && final(self)@ == old(self)@,
            !old(self).finished() && ends_line(bytes@) ==> is_text_of(r, bytes@.drop_last())
                && final(self)@ == old(self)@,
            !old(self).finished() && !ends_line(bytes@) ==> json_settles(
                old(self)@ + bytes@,
                json_scan(old(self)@ + bytes@),
                false,
                final(self)@,
                r,
            ),
    {
        if self.finished {
            return Step::Finished;
        }
        if bytes.len() > 0 && bytes[bytes.len() - 1] == NEW_LINE {
            let mut line = Vec::new();
            extend(&mut line, bytes);
            line.pop();
            proof {
                assert(line@ =~= bytes@.drop_last());
            }
            text_step(&line)
        } else {
            extend(&mut self.json_buffer, bytes);
            let scan = scan_json(&self.json_buffer);
            settle_json(&mut self.json_buffer, scan, false)
        }
    }

    /// Takes the end of the stream: the stream is over, whatever is left.
    pub fn on_end(&mut self) -> (r: Step)
        ensures
            r is Finished,
            *final(self) == *old(self),
    {
        Step::Finished
    }
}

} // verus!

use crate::SessionError;
use vstd::prelude::*;

verus! {

/// The bytes of `data: `, with which every frame that carries a payload
/// begins.
pub open spec fn data_prefix() -> Seq<u8> {
    seq![100u8, 97u8, 116u8, 97u8, 58u8, 32u8]
}

/// The bytes of `[DONE]`, the payload that ends the stream.
pub open spec fn done_mark() -> Seq<u8> {
    seq![91u8, 68u8, 79u8, 78u8, 69u8, 93u8]
}

/// Whether a blank line, two line feeds, begins at position `i`.
pub open spec fn is_break(bytes: Seq<u8>, i: int) -> bool {
    0 <= i && i + 1 < bytes.len() && bytes[i] == 10 && bytes[i + 1] == 10
}

/// The position of the first blank line, or the length where there is none.
pub open spec fn first_break(bytes: Seq<u8>) -> int
    decreases bytes.len(),
{
    if bytes.len() < 2 {
        bytes.len() as int
    } else if bytes[0] == 10 && bytes[1] == 10 {
        0
    } else {
        1 + first_break(bytes.skip(1))
    }
}

/// What a frame is.
pub enum Frame {
    /// Nothing but white space stands between two blank lines: the frame is
    /// passed over.
    Blank,
    /// The text after `data: `.
    Payload(Seq<u8>),
    /// The payload `[DONE]`: the stream is over.
    Done,
    /// The frame holds a text that does not begin with `data: `.
    Malformed,
}

/// Whether a byte is white space: a blank, or one of the control characters
/// from the tabulator to the carriage return.
pub open spec fn is_space(byte: u8) -> bool {
    byte == 32 || (9 <= byte && byte <= 13)
}

/// The bytes without the white space at their front.
pub open spec fn trim_start(bytes: Seq<u8>) -> Seq<u8>
    decreases bytes.len(),
{
    if bytes.len() > 0 && is_space(bytes[0]) {
        trim_start(bytes.skip(1))
    } else {
        bytes
    }
}

/// The bytes without the white space at their end.
pub open spec fn trim_end(bytes: Seq<u8>) -> Seq<u8>
    decreases bytes.len(),
{
    if bytes.len() > 0 && is_space(bytes.last()) {
        trim_end(bytes.drop_last())
    } else {
        bytes
    }
}

/// The bytes without the white space at either end.
pub open spec fn trimmed(bytes: Seq<u8>) -> Seq<u8> {
    trim_end(trim_start(bytes))
}

/// Reads the text of a frame.
pub open spec fn classify_text(text: Seq<u8>) -> Frame {
    if text.len() == 0 {
        Frame::Blank
    } else if data_prefix().is_prefix_of(text) {
        if text.skip(6) == done_mark() {
            Frame::Done
        } else {
            Frame::Payload(text.skip(6))
        }
    } else {
        Frame::Malformed
    }
}

/// Reads a frame, the bytes between two blank lines: white space at its
/// ends does not count.
pub open spec fn classify(frame: Seq<u8>) -> Frame {
    classify_text(trimmed(frame))
}

/// What one pull at the decoder gives.
pub enum Outcome {
    /// The next payload.
    Payload(Seq<u8>),
    /// No frame is complete yet and the source is still open.
    Starved,
    /// The stream is over: `[DONE]` was read, or the source is closed and
    /// nothing is left.
    End,
    /// A malformed frame was read.
    Malformed,
}

/// One pull: what it gives and the bytes that stay buffered.
pub struct Pull {
    pub outcome: Outcome,
    pub rest: Seq<u8>,
}

/// What reading one frame gives, and what stays buffered after it.
pub open spec fn taken(frame: Seq<u8>, rest: Seq<u8>) -> Pull {
    match classify(frame) {
        Frame::Blank => Pull { outcome: Outcome::End, rest: Seq::empty() },
        Frame::Payload(payload) => Pull { outcome: Outcome::Payload(payload), rest },
        Frame::Done => Pull { outcome: Outcome::End, rest: Seq::empty() },
        Frame::Malformed => Pull { outcome: Outcome::Malformed, rest: Seq::empty() },
    }
}

/// One pull at the buffered bytes. Complete frames are read from the front
/// and blank ones passed over. While the source is open, bytes after the
/// last blank line wait for more; once it is closed they are the last frame.
pub open spec fn pull(pending: Seq<u8>, closed: bool) -> Pull
    decreases pending.len(),
{
    let at = first_break(pending);
    if 0 <= at && at + 2 <= pending.len() {
        let rest = pending.skip(at + 2);
        if classify(pending.take(at)) is Blank {
            pull(rest, closed)
        } else {
            taken(pending.take(at), rest)
        }
    } else if closed {
        taken(pending, Seq::empty())
    } else {
        Pull { outcome: Outcome::Starved, rest: pending }
    }
}

/// The first blank line is a blank line, none begins before it, and where
/// there is none `first_break` is the length.
pub proof fn lemma_first_break(bytes: Seq<u8>)
    ensures
        0 <= first_break(bytes) <= bytes.len(),
        first_break(bytes) < bytes.len() ==> is_break(bytes, first_break(bytes)),
        forall|j: int| 0 <= j < first_break(bytes) ==> !is_break(bytes, j),
    decreases bytes.len(),
{
    if bytes.len() >= 2 && !(bytes[0] == 10 && bytes[1] == 10) {
        let tail = bytes.skip(1);
        lemma_first_break(tail);
        assert forall|j: int| 0 <= j < first_break(bytes) implies !is_break(bytes, j) by {
            if j > 0 {
                assert(!is_break(tail, j - 1));
            }
        }
    }
}

/// A position with no blank line before it, which holds one or is the
/// length, is `first_break`.
pub proof fn lemma_first_break_is(bytes: Seq<u8>, at: int)
    requires
        0 <= at <= bytes.len(),
        at < bytes.len() ==> is_break(bytes, at),
        forall|j: int| 0 <= j < at ==> !is_break(bytes, j),
    ensures
        first_break(bytes) == at,
{
    lemma_first_break(bytes);
    let found = first_break(bytes);
    if found < at {
        assert(is_break(bytes, found));
    } else if at < found {
        assert(is_break(bytes, at));
    }
}

/// What a decoder holds: the bytes not yet read as frames, whether the
/// source is closed, and whether the sequence of payloads is over.
pub struct DecoderView {
    pub pending: Seq<u8>,
    pub closed: bool,
    pub ended: bool,
}

/// Turns the bytes of an event stream, as they arrive, into its payloads.
#[derive(Debug)]
pub struct Decoder {
    pub pending: Vec<u8>,
    pub closed: bool,
    pub ended: bool,
}

impl View for Decoder {
    type V = DecoderView;

    open spec fn view(&self) -> DecoderView {
        DecoderView { pending: self.pending@, closed: self.closed, ended: self.ended }
    }
}

/// The position of the first blank line at or after `from`, or the length.
fn find_break(bytes: &Vec<u8>, from: usize) -> (at: usize)
    requires
        from <= bytes@.len(),
    ensures
        from <= at <= bytes@.len(),
        at - from == first_break(bytes@.skip(from as int)),
{
    let ghost tail = bytes@.skip(from as int);
    let mut i: usize = from;
    while i < bytes.len() && i + 1 < bytes.len()
        invariant
            from <= i <= bytes@.len(),
            tail == bytes@.skip(from as int),
            forall|j: int| 0 <= j < i - from ==> !is_break(tail, j),
        decreases bytes@.len() - i,
    {
        if bytes[i] == 10 && bytes[i + 1] == 10 {
            proof {
                assert(is_break(tail, i - from));
                lemma_first_break_is(tail, i - from);
            }
            return i;
        }
        i += 1;
    }
    proof {
        assert forall|j: int| 0 <= j < tail.len() implies !is_break(tail, j) by {}
        lemma_first_break_is(tail, tail.len() as int);
    }
    bytes.len()
}

/// A frame as it was read from the buffer.
enum Read {
    Blank,
    Payload(Vec<u8>),
    Done,
    Malformed,
}

/// Whether a frame was read as `classify` has it.
spec fn read_as(read: Read, frame: Frame) -> bool {
    match read {
        Read::Blank => frame == Frame::Blank,
        Read::Payload(payload) => frame == Frame::Payload(payload@),
        Read::Done => frame == Frame::Done,
        Read::Malformed => frame == Frame::Malformed,
    }
}

/// The position of the first byte from `from` up to `to` that is no white
/// space, or `to`.
fn skip_spaces(bytes: &Vec<u8>, from: usize, to: usize) -> (at: usize)
    requires
        from <= to <= bytes@.len(),
    ensures
        from <= at <= to,
        trim_start(bytes@.subrange(from as int, to as int)) == bytes@.subrange(
            at as int,
            to as int,
        ),
{
    let mut at: usize = from;
    while at < to && (bytes[at] == 32 || (9 <= bytes[at] && bytes[at] <= 13))
        invariant
            from <= at <= to <= bytes@.len(),
            trim_start(bytes@.subrange(from as int, to as int)) == trim_start(
                bytes@.subrange(at as int, to as int),
            ),
        decreases to - at,
    {
        assert(bytes@.subrange(at as int, to as int).skip(1) =~= bytes@.subrange(
            at + 1,
            to as int,
        ));
        at += 1;
    }
    at
}

/// The position after the last byte from `from` up to `to` that is no white
/// space, or `from`.
fn drop_spaces(bytes: &Vec<u8>, from: usize, to: usize) -> (at: usize)
    requires
        from <= to <= bytes@.len(),
    ensures
        from <= at <= to,
        trim_end(bytes@.subrange(from as int, to as int)) == bytes@.subrange(
            from as int,
            at as int,
        ),
{
    let mut at: usize = to;
    while at > from && (bytes[at - 1] == 32 || (9 <= bytes[at - 1] && bytes[at - 1] <= 13))
        invariant
            from <= at <= to <= bytes@.len(),
            trim_end(bytes@.subrange(from as int, to as int)) == trim_end(
                bytes@.subrange(from as int, at as int),
            ),
        decreases at - from,
    {
        assert(bytes@.subrange(from as int, at as int).drop_last() =~= bytes@.subrange(
            from as int,
            at - 1,
        ));
        at -= 1;
    }
    at
}

/// Reads the frame that stands in the buffer from `from` up to `to`.
fn read_frame(bytes: &Vec<u8>, from: usize, to: usize) -> (read: Read)
    requires
        from <= to <= bytes@.len(),
    ensures
        read_as(read, classify(bytes@.subrange(from as int, to as int))),
{
    let first = skip_spaces(bytes, from, to);
    let last = drop_spaces(bytes, first, to);
    read_text(bytes, first, last)
}

/// Reads the text that stands in the buffer from `from` up to `to`.
fn read_text(bytes: &Vec<u8>, from: usize, to: usize) -> (read: Read)
    requires
        from <= to <= bytes@.len(),
    ensures
        read_as(read, classify_text(bytes@.subrange(from as int, to as int))),
{
    let ghost frame = bytes@.subrange(from as int, to as int);
    if to == from {
        return Read::Blank;
    }
    if to - from < 6 || bytes[from] != 100 || bytes[from + 1] != 97 || bytes[from + 2] != 116
        || bytes[from + 3] != 97 || bytes[from + 4] != 58 || bytes[from + 5] != 32 {
        assert(!data_prefix().is_prefix_of(frame)) by {
            if data_prefix().is_prefix_of(frame) {
                assert(frame[0] == data_prefix()[0]);
                assert(frame[1] == data_prefix()[1]);
                assert(frame[2] == data_prefix()[2]);
                assert(frame[3] == data_prefix()[3]);
                assert(frame[4] == data_prefix()[4]);
                assert(frame[5] == data_prefix()[5]);
            }
        }
        return Read::Malformed;
    }
    assert(data_prefix().is_prefix_of(frame));
    let start: usize = from + 6;
    if to - start == 6 && bytes[start] == 91 && bytes[start + 1] == 68 && bytes[start + 2] == 79
        && bytes[start + 3] == 78 && bytes[start + 4] == 69 && bytes[start + 5] == 93 {
        assert(frame.skip(6) =~= done_mark());
        return Read::Done;
    }
    assert(frame.skip(6) != done_mark()) by {
        if frame.skip(6) == done_mark() {
            assert(frame.skip(6).len() == 6);
            assert(frame.skip(6)[0] == done_mark()[0]);
            assert(frame.skip(6)[1] == done_mark()[1]);
            assert(frame.skip(6)[2] == done_mark()[2]);
            assert(frame.skip(6)[3] == done_mark()[3]);
            assert(frame.skip(6)[4] == done_mark()[4]);
            assert(frame.skip(6)[5] == done_mark()[5]);
        }
    }
    let mut payload: Vec<u8> = Vec::new();
    let mut i: usize = start;
    while i < to
        invariant
            start <= i <= to <= bytes@.len(),
            payload@ == bytes@.subrange(start as int, i as int),
        decreases to - i,
    {
        payload.push(bytes[i]);
        assert(payload@ =~= bytes@.subrange(start as int, i + 1));
        i += 1;
    }
    assert(payload@ =~= frame.skip(6));
    Read::Payload(payload)
}

impl Decoder {
    /// A decoder that has received nothing, on an open source.
    pub fn new() -> (decoder: Decoder)
        ensures
            decoder@ == (DecoderView { pending: Seq::empty(), closed: false, ended: false }),
    {
        Decoder { pending: Vec::new(), closed: false, ended: false }
    }

    /// Takes in the bytes that the source has delivered. Once the sequence
    /// of payloads is over, or the source was closed, they are dropped.
    pub fn push(&mut self, chunk: &[u8])
        ensures
            final(self).closed == old(self).closed,
            final(self).ended == old(self).ended,
            final(self).pending@ == if old(self).ended || old(self).closed {
                old(self).pending@
            } else {
                old(self).pending@ + chunk@
            },
    {
        if !self.ended && !self.closed {
            self.pending.extend_from_slice(chunk);
        }
    }

    /// Notes that the source is closed: what is buffered is all there is.
    pub fn close(&mut self)
        ensures
            final(self).closed,
            final(self).ended == old(self).ended,
            final(self).pending@ == old(self).pending@,
    {
        self.closed = true;
    }

    /// Gives the next payload, if the buffered bytes hold one. `Ok(None)`
    /// means that more bytes are needed, or, once `ended` is set, that the
    /// stream is over. A malformed frame is an error and ends the sequence.
    pub fn next_payload(&mut self) -> (res: Result<Option<Vec<u8>>, SessionError>)
        ensures
            old(self).ended ==> final(self)@ == old(self)@ && res == Ok::<
                Option<Vec<u8>>,
                SessionError,
            >(None),
            !old(self).ended ==> {
                let pulled = pull(old(self).pending@, old(self).closed);
                &&& final(self).pending@ == pulled.rest
                &&& final(self).closed == old(self).closed
                &&& match pulled.outcome {
                    Outcome::Payload(payload) => !final(self).ended && res is Ok && res->Ok_0
                        is Some && res->Ok_0->0@ == payload,
                    Outcome::Starved => !final(self).ended && res == Ok::<
                        Option<Vec<u8>>,
                        SessionError,
                    >(None),
                    Outcome::End => final(self).ended && res == Ok::<
                        Option<Vec<u8>>,
                        SessionError,
                    >(None),
                    Outcome::Malformed => final(self).ended && res == Err::<
                        Option<Vec<u8>>,
                        SessionError,
                    >(SessionError::Decode),
                }
            },
    {
        if self.ended {
            return Ok(None);
        }
        let ghost all = self.pending@;
        let mut from: usize = 0;
        assert(all.skip(0) =~= all);
        loop
            invariant
                all == old(self).pending@,
                !old(self).ended,
                self.pending@ == all,
                self.closed == old(self).closed,
                !self.ended,
                from <= all.len(),
                pull(all, self.closed) == pull(all.skip(from as int), self.closed),
            decreases all.len() - from,
        {
            let ghost tail = all.skip(from as int);
            proof {
                lemma_first_break(tail);
            }
            let at = find_break(&self.pending, from);
            if at < self.pending.len() {
                assert(tail.take(at - from) =~= all.subrange(from as int, at as int));
                assert(tail.skip(at - from + 2) =~= all.skip(at + 2));
                let read = read_frame(&self.pending, from, at);
                match read {
                    Read::Blank => {
                        from = at + 2;
                    },
                    Read::Payload(payload) => {
                        self.pending = self.pending.split_off(at + 2);
                        assert(self.pending@ =~= all.skip(at + 2));
                        return Ok(Some(payload));
                    },
                    Read::Malformed => {
                        self.pending.clear();
                        self.ended = true;
                        return Err(SessionError::Decode);
                    },
                    Read::Done => {
                        self.pending.clear();
                        self.ended = true;
                        return Ok(None);
                    },
                }
            } else if self.closed {
                assert(tail =~= all.subrange(from as int, all.len() as int));
                let read = read_frame(&self.pending, from, at);
                self.pending.clear();
                match read {
                    Read::Payload(payload) => {
                        return Ok(Some(payload));
                    },
                    Read::Malformed => {
                        self.ended = true;
                        return Err(SessionError::Decode);
                    },
                    _ => {
                        self.ended = true;
                        return Ok(None);
                    },
                }
            } else {
                self.pending = self.pending.split_off(from);
                assert(self.pending@ =~= tail);
                return Ok(None);
            }
        }
    }
}

/// Frames do not depend on how the stream is cut into chunks: what a pull
/// gives while the source is open, it gives as well after more bytes have
/// arrived, and those bytes wait behind what stayed buffered. A pull that
/// was starved reads, once more bytes are there, what stayed buffered
/// followed by them.
pub proof fn lemma_pull_with_more(pending: Seq<u8>, more: Seq<u8>, closed: bool)
    ensures
        match pull(pending, false).outcome {
            Outcome::Payload(payload) => pull(pending + more, closed) == (Pull {
                outcome: Outcome::Payload(payload),
                rest: pull(pending, false).rest + more,
            }),
            Outcome::Starved => pull(pending + more, closed) == pull(
                pull(pending, false).rest + more,
                closed,
            ),
            Outcome::End => pull(pending + more, closed) == (Pull {
                outcome: Outcome::End,
                rest: Seq::empty(),
            }),
            Outcome::Malformed => pull(pending + more, closed) == (Pull {
                outcome: Outcome::Malformed,
                rest: Seq::empty(),
            }),
        },
    decreases pending.len(),
{
    let at = first_break(pending);
    lemma_first_break(pending);
    if at + 2 <= pending.len() {
        let longer = pending + more;
        assert(is_break(longer, at));
        assert forall|j: int| 0 <= j < at implies !is_break(longer, j) by {
            assert(!is_break(pending, j));
        }
        lemma_first_break_is(longer, at);
        assert(longer.take(at) =~= pending.take(at));
        assert(longer.skip(at + 2) =~= pending.skip(at + 2) + more);
        if classify(pending.take(at)) is Blank {
            lemma_pull_with_more(pending.skip(at + 2), more, closed);
        }
    }
}

/// What a whole stream holds: its payloads in order, and whether it breaks
/// off at a malformed frame.
pub struct Decoded {
    pub payloads: Seq<Seq<u8>>,
    pub malformed: bool,
}

/// A decoded stream with one more payload in front.
pub open spec fn preceded(payload: Seq<u8>, rest: Decoded) -> Decoded {
    Decoded { payloads: seq![payload] + rest.payloads, malformed: rest.malformed }
}

/// What the stream `bytes` holds, once its source is closed: the payloads
/// that pulls give one after the other, up to the end of the stream, to
/// `[DONE]` or to a malformed frame.
pub open spec fn decoded(bytes: Seq<u8>) -> Decoded
    decreases bytes.len(),
{
    let first = pull(bytes, true);
    match first.outcome {
        Outcome::Payload(payload) => if first.rest.len() < bytes.len() {
            preceded(payload, decoded(first.rest))
        } else {
            preceded(payload, Decoded { payloads: Seq::empty(), malformed: false })
        },
        Outcome::Malformed => Decoded { payloads: Seq::empty(), malformed: true },
        _ => Decoded { payloads: Seq::empty(), malformed: false },
    }
}

/// Trimming takes bytes away and adds none.
pub proof fn lemma_trimmed_is_no_longer(bytes: Seq<u8>)
    ensures
        trim_start(bytes).len() <= bytes.len(),
        trim_end(bytes).len() <= bytes.len(),
        trimmed(bytes).len() <= bytes.len(),
    decreases bytes.len(),
{
    if bytes.len() > 0 {
        lemma_trimmed_is_no_longer(bytes.skip(1));
        lemma_trimmed_is_no_longer(bytes.drop_last());
    }
    lemma_trim_end_is_no_longer(trim_start(bytes));
}

/// Trimming the end takes bytes away and adds none.
pub proof fn lemma_trim_end_is_no_longer(bytes: Seq<u8>)
    ensures
        trim_end(bytes).len() <= bytes.len(),
    decreases bytes.len(),
{
    if bytes.len() > 0 {
        lemma_trim_end_is_no_longer(bytes.drop_last());
    }
}

/// A pull that gives a payload leaves fewer bytes buffered than there were.
pub proof fn lemma_pull_shrinks(pending: Seq<u8>, closed: bool)
    ensures
        pull(pending, closed).outcome is Payload ==> pull(pending, closed).rest.len()
            < pending.len(),
    decreases pending.len(),
{
    let at = first_break(pending);
    if 0 <= at && at + 2 <= pending.len() {
        if classify(pending.take(at)) is Blank {
            lemma_pull_shrinks(pending.skip(at + 2), closed);
        }
    } else {
        lemma_trimmed_is_no_longer(pending);
    }
}

/// A stream is its first payload followed by what the bytes after it hold.
pub proof fn lemma_decoded_unfolds(bytes: Seq<u8>)
    ensures
        decoded(bytes) == match pull(bytes, true).outcome {
            Outcome::Payload(payload) => preceded(payload, decoded(pull(bytes, true).rest)),
            Outcome::Malformed => Decoded { payloads: Seq::empty(), malformed: true },
            _ => Decoded { payloads: Seq::empty(), malformed: false },
        },
{
    lemma_pull_shrinks(bytes, true);
}

/// The payloads of a stream do not depend on the chunks in which it
/// arrives: a payload pulled from the bytes received so far is the next
/// payload of the whole stream, whatever follows, and what stayed buffered,
/// with the bytes that follow, holds the payloads after it.
pub proof fn lemma_decoded_with_more(pending: Seq<u8>, more: Seq<u8>)
    ensures
        decoded(pending + more) == match pull(pending, false).outcome {
            Outcome::Payload(payload) => preceded(
                payload,
                decoded(pull(pending, false).rest + more),
            ),
            Outcome::Starved => decoded(pull(pending, false).rest + more),
            Outcome::End => Decoded { payloads: Seq::empty(), malformed: false },
            Outcome::Malformed => Decoded { payloads: Seq::empty(), malformed: true },
        },
{
    lemma_pull_with_more(pending, more, true);
    lemma_decoded_unfolds(pending + more);
    lemma_decoded_unfolds(pull(pending, false).rest + more);
}

} // verus!

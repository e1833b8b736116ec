//! The handshake line: what a peer sends before anything else.
use crate::text::string_of_utf8;
use vstd::prelude::*;
use vstd::utf8::*;

verus! {

/// The longest handshake line, in bytes, without its line feed.
pub const MAX_LINE: usize = 256;

/// Why no handshake line was read.
#[derive(Debug, Clone, Copy, PartialEq, Eq, Structural)]
pub enum LineError {
    /// The peer closed the stream before the line ended.
    Eof,
    /// More than [`MAX_LINE`] bytes came before a line feed.
    TooLong,
    /// The line is not UTF-8.
    NotUtf8,
    /// The line did not end in time.
    TimedOut,
    /// Reading the stream failed.
    Failed,
}

/// What happened on the stream while a line was awaited.
#[derive(Debug, Clone, Copy, PartialEq, Eq, Structural)]
pub enum LineEvent {
    /// One byte was read.
    Byte(u8),
    /// The stream ended.
    Eof,
    /// Reading failed.
    Failed,
    /// The time allowed for the handshake is over.
    TimedOut,
}

/// What to do after an event.
#[derive(Debug)]
pub enum LineStep {
    /// Read on.
    More,
    /// Reading is over.
    Done(Result<String, LineError>),
}

/// What an outcome says, as mathematical text.
pub open spec fn line_view(r: Result<String, LineError>) -> Result<Seq<char>, LineError> {
    match r {
        Ok(s) => Ok(s@),
        Err(e) => Err(e),
    }
}

/// `raw` without one carriage return at its end.
pub open spec fn without_cr(raw: Seq<u8>) -> Seq<u8> {
    if raw.len() > 0 && raw.last() == 13 {
        raw.drop_last()
    } else {
        raw
    }
}

/// The line that the bytes before a line feed hold.
pub open spec fn line_text(raw: Seq<u8>) -> Result<Seq<char>, LineError> {
    if valid_utf8(without_cr(raw)) {
        Ok(decode_utf8(without_cr(raw)))
    } else {
        Err(LineError::NotUtf8)
    }
}

/// The outcome of reading a line from a stream that holds `stream` and then
/// ends.
pub open spec fn line_of(stream: Seq<u8>) -> Result<Seq<char>, LineError> {
    match stream.index_of_first(10u8) {
        Some(n) if n <= MAX_LINE => line_text(stream.take(n)),
        _ => if stream.len() > MAX_LINE {
            Err(LineError::TooLong)
        } else {
            Err(LineError::Eof)
        },
    }
}

/// How many bytes reading a line takes off a stream that holds `stream`: the
/// line and its line feed, and nothing behind it.
pub open spec fn line_taken(stream: Seq<u8>) -> int {
    match stream.index_of_first(10u8) {
        Some(n) if n <= MAX_LINE => n + 1,
        _ => if stream.len() > MAX_LINE {
            MAX_LINE + 1
        } else {
            stream.len() as int
        },
    }
}

/// Reads one line, a byte at a time.
pub struct LineReader {
    buf: Vec<u8>,
}

impl View for LineReader {
    type V = Seq<u8>;

    /// The bytes of the line so far.
    closed spec fn view(&self) -> Seq<u8> {
        self.buf@
    }
}

impl LineReader {
    /// The line so far is within the limit.
    pub open spec fn wf(&self) -> bool {
        self@.len() <= MAX_LINE
    }

    /// A reader at the start of a line.
    pub fn new() -> (r: Self)
        ensures
            r.wf(),
            r@ == Seq::<u8>::empty(),
    {
        LineReader { buf: Vec::new() }
    }

    /// Takes up one event and says whether to read on. Once reading is over
    /// the reader is at the start of a line again.
    pub fn step(&mut self, event: LineEvent) -> (step: LineStep)
        requires
            old(self).wf(),
        ensures
            final(self).wf(),
            match event {
                LineEvent::Byte(b) => if b == 10 {
                    &&& step matches LineStep::Done(r) && line_view(r) == line_text(old(self)@)
                    &&& final(self)@ == Seq::<u8>::empty()
                } else if old(self)@.len() < MAX_LINE {
                    &&& step == LineStep::More
                    &&& final(self)@ == old(self)@.push(b)
                } else {
                    &&& step == LineStep::Done(Err(LineError::TooLong))
                    &&& final(self)@ == Seq::<u8>::empty()
                },
                LineEvent::Eof => {
                    &&& step == LineStep::Done(Err(LineError::Eof))
                    &&& final(self)@ == Seq::<u8>::empty()
                },
                LineEvent::Failed => {
                    &&& step == LineStep::Done(Err(LineError::Failed))
                    &&& final(self)@ == Seq::<u8>::empty()
                },
                LineEvent::TimedOut => {
                    &&& step == LineStep::Done(Err(LineError::TimedOut))
                    &&& final(self)@ == Seq::<u8>::empty()
                },
            },
    {
        match event {
            LineEvent::Byte(b) => {
                if b == 10 {
                    let mut raw: Vec<u8> = Vec::new();
                    std::mem::swap(&mut raw, &mut self.buf);
                    LineStep::Done(finish_line(raw))
                } else if self.buf.len() < MAX_LINE {
                    self.buf.push(b);
                    LineStep::More
                } else {
                    self.buf.clear();
                    LineStep::Done(Err(LineError::TooLong))
                }
            },
            LineEvent::Eof => {
                self.buf.clear();
                LineStep::Done(Err(LineError::Eof))
            },
            LineEvent::Failed => {
                self.buf.clear();
                LineStep::Done(Err(LineError::Failed))
            },
            LineEvent::TimedOut => {
                self.buf.clear();
                LineStep::Done(Err(LineError::TimedOut))
            },
        }
    }
}

/// The line that the bytes before a line feed hold.
fn finish_line(raw: Vec<u8>) -> (r: Result<String, LineError>)
    ensures
        line_view(r) == line_text(raw@),
{
    let mut body = raw;
    if body.len() > 0 && body[body.len() - 1] == 13 {
        body.pop();
    }
    proof {
        assert(body@ == without_cr(raw@));
    }
    match string_of_utf8(body) {
        Some(s) => Ok(s),
        None => Err(LineError::NotUtf8),
    }
}

/// Reads a line from a stream that holds `stream` and then ends. The second
/// result is the number of bytes taken off the stream.
pub fn read_line(stream: &[u8]) -> (r: (Result<String, LineError>, usize))
    ensures
        line_view(r.0) == line_of(stream@),
        r.1 == line_taken(stream@),
{
    let mut reader = LineReader::new();
    let mut i: usize = 0;
    proof {
        assert(stream@.take(0) == Seq::<u8>::empty());
        stream@.index_of_first_ensures(10u8);
    }
    while i < stream.len()
        invariant
            reader.wf(),
            i <= stream@.len(),
            reader@ == stream@.take(i as int),
            forall|j: int| 0 <= j < i ==> stream@[j] != 10,
            stream@.index_of_first(10u8) matches Some(n) ==> {
                &&& 0 <= n < stream@.len()
                &&& stream@[n] == 10
                &&& forall|j: int| 0 <= j < n ==> stream@[j] != 10
            },
            stream@.index_of_first(10u8) is None ==> !stream@.contains(10u8),
        decreases stream@.len() - i,
    {
        let b: u8 = stream[i];
        let step = reader.step(LineEvent::Byte(b));
        proof {
            assert(stream@.take(i + 1) == stream@.take(i as int).push(b));
            assert(stream@[i as int] == b);
            if b == 10 {
                assert(stream@.contains(10u8));
                let n = stream@.index_of_first(10u8)->0;
                if n < i {
                    assert(stream@[n] != 10);
                } else if n > i {
                    assert(stream@[i as int] != 10);
                }
            }
        }
        match step {
            LineStep::More => {
                i = i + 1;
            },
            LineStep::Done(r) => {
                proof {
                    if b != 10 {
                        assert(i == MAX_LINE);
                        if stream@.index_of_first(10u8) is Some {
                            let n = stream@.index_of_first(10u8)->0;
                            assert(n > i);
                        }
                    }
                }
                return (r, i + 1);
            },
        }
    }
    proof {
        if stream@.index_of_first(10u8) is Some {
            let n = stream@.index_of_first(10u8)->0;
            assert(stream@[n] != 10);
        }
    }
    match reader.step(LineEvent::Eof) {
        LineStep::More => (Err(LineError::Eof), i),
        LineStep::Done(r) => (r, i),
    }
}

// ---------------------------------------------------------------------------
// Laws
// ---------------------------------------------------------------------------

/// An ASCII character is its own byte; the bytes of any other are beyond ASCII.
proof fn lemma_scalar_bytes(c: u32)
    requires
        is_scalar(c),
    ensures
        c < 128 ==> encode_scalar(c) == seq![c as u8],
        c >= 128 ==> forall|i: int|
            0 <= i < encode_scalar(c).len() ==> #[trigger] encode_scalar(c)[i] >= 128,
        encode_scalar(c).len() > 0,
{
    assert(c < 128 ==> (c & 0x7F) as u8 == c as u8) by (bit_vector);
    assert((0xC0u8 | ((c >> 6) & 0x1F) as u8) >= 128) by (bit_vector);
    assert((0xE0u8 | ((c >> 12) & 0x0F) as u8) >= 128) by (bit_vector);
    assert((0xF0u8 | ((c >> 18) & 0x7) as u8) >= 128) by (bit_vector);
    assert((0x80u8 | (c & 0x3F) as u8) >= 128) by (bit_vector);
    assert((0x80u8 | ((c >> 6) & 0x3F) as u8) >= 128) by (bit_vector);
    assert((0x80u8 | ((c >> 12) & 0x3F) as u8) >= 128) by (bit_vector);
}

/// The line feed and the carriage return are told by their numbers.
proof fn lemma_line_ends(c: char)
    ensures
        c as u32 == 10 ==> c == '\n',
        c as u32 == 13 ==> c == '\r',
{
}

/// A line feed among the bytes of a text is a line feed in the text, and a
/// carriage return at the end of its bytes is one at its end.
proof fn lemma_control_bytes(l: Seq<char>)
    ensures
        (forall|i: int| 0 <= i < l.len() ==> #[trigger] l[i] != '\n') ==> !encode_utf8(l).contains(
            10u8,
        ),
        l.len() > 0 && l.last() != '\r' ==> encode_utf8(l).len() > 0 && encode_utf8(l).last() != 13,
        l.len() == 0 ==> encode_utf8(l).len() == 0,
    decreases l.len(),
{
    if l.len() > 0 {
        let c = l[0] as u32;
        char_is_scalar(l[0]);
        lemma_scalar_bytes(c);
        lemma_line_ends(l[0]);
        assert(c < 128 ==> encode_scalar(c)[0] == c);
        let head = encode_scalar(c);
        let rest = l.drop_first();
        lemma_control_bytes(rest);
        let tail = encode_utf8(rest);
        assert(encode_utf8(l) == head + tail);
        if forall|i: int| 0 <= i < l.len() ==> #[trigger] l[i] != '\n' {
            assert(forall|i: int| 0 <= i < rest.len() ==> #[trigger] rest[i] == l[i + 1]);
            assert(l[0] != '\n');
            assert forall|i: int| 0 <= i < encode_utf8(l).len() implies #[trigger] encode_utf8(
                l,
            )[i] != 10 by {
                if i < head.len() {
                    assert(encode_utf8(l)[i] == head[i]);
                } else {
                    assert(encode_utf8(l)[i] == tail[i - head.len()]);
                    assert(tail.contains(tail[i - head.len()]));
                }
            }
        }
        if l.last() != '\r' {
            if rest.len() == 0 {
                assert(encode_utf8(l).last() == head.last());
                assert(l.last() == l[0]);
            } else {
                assert(l.last() == rest.last());
                assert(encode_utf8(l).last() == tail.last());
            }
        }
    }
}

/// The first line feed behind bytes without one is found.
proof fn lemma_first_line_feed(body: Seq<u8>, rest: Seq<u8>)
    requires
        !body.contains(10u8),
    ensures
        (body + seq![10u8] + rest).index_of_first(10u8) == Some(body.len() as int),
        (body + seq![10u8] + rest).take(body.len() as int) == body,
{
    let stream = body + seq![10u8] + rest;
    let n = body.len() as int;
    stream.index_of_first_ensures(10u8);
    assert(stream[n] == 10);
    assert(stream.contains(10u8));
    let m = stream.index_of_first(10u8)->0;
    if m < n {
        assert(stream[m] == body[m]);
        assert(body.contains(body[m]));
    } else if m > n {
        assert(stream[n] != 10);
    }
    assert(stream.take(n) == body);
}

/// A text without line feeds that fits, and does not itself end in a carriage
/// return, is read back from its bytes and a line end, whatever comes behind.
/// The line end is a line feed, with or without a carriage return before it,
/// and nothing behind it is taken off the stream.
pub proof fn law_line_reads_back(l: Seq<char>, rest: Seq<u8>)
    requires
        forall|i: int| 0 <= i < l.len() ==> #[trigger] l[i] != '\n',
        l.len() > 0 ==> l.last() != '\r',
    ensures
        encode_utf8(l).len() <= MAX_LINE ==> {
            let stream = encode_utf8(l) + seq![10u8] + rest;
            line_of(stream) == Ok::<Seq<char>, LineError>(l) && line_taken(stream) == encode_utf8(
                l,
            ).len() + 1
        },
        encode_utf8(l).len() < MAX_LINE ==> {
            let stream = encode_utf8(l) + seq![13u8, 10u8] + rest;
            line_of(stream) == Ok::<Seq<char>, LineError>(l) && line_taken(stream) == encode_utf8(
                l,
            ).len() + 2
        },
{
    let body = encode_utf8(l);
    lemma_control_bytes(l);
    encode_utf8_valid_utf8(l);
    encode_utf8_decode_utf8(l);
    lemma_first_line_feed(body, rest);
    assert(without_cr(body) == body);
    let with_cr = body.push(13u8);
    assert(!with_cr.contains(10u8)) by {
        if with_cr.contains(10u8) {
            let i = choose|i: int| 0 <= i < with_cr.len() && with_cr[i] == 10;
            assert(body[i] == 10);
            assert(body.contains(10u8));
        }
    }
    lemma_first_line_feed(with_cr, rest);
    assert(with_cr + seq![10u8] + rest == body + seq![13u8, 10u8] + rest);
    assert(with_cr.drop_last() == body);
}

/// Bytes without a line feed, at most 256 of them, and then a line feed are a
/// line, whatever comes behind. One carriage return at their end is not part of
/// it. The line is the text of the bytes where they are UTF-8, and an error
/// where they are not. It is taken off the stream with its line feed.
pub proof fn law_line_is_cut_out(body: Seq<u8>, rest: Seq<u8>)
    requires
        !body.contains(10u8),
        body.len() <= 256,
    ensures
        ({
            let stream = body + seq![10u8] + rest;
            let cr = body.len() > 0 && body[body.len() - 1] == 13;
            let text = if cr {
                body.take(body.len() - 1)
            } else {
                body
            };
            &&& line_taken(stream) == body.len() + 1
            &&& valid_utf8(text) ==> line_of(stream) == Ok::<Seq<char>, LineError>(
                decode_utf8(text),
            )
            &&& !valid_utf8(text) ==> line_of(stream) == Err::<Seq<char>, LineError>(
                LineError::NotUtf8,
            )
            &&& line_text(body) == line_of(stream)
        }),
{
    lemma_first_line_feed(body, rest);
    if body.len() > 0 {
        assert(body.take(body.len() - 1) == body.drop_last());
    }
}

/// Where the first 257 bytes hold no line feed, the line is too long, and those
/// bytes are taken off the stream.
pub proof fn law_long_line(stream: Seq<u8>)
    requires
        stream.len() > 256,
        forall|i: int| 0 <= i <= 256 ==> #[trigger] stream[i] != 10,
    ensures
        line_of(stream) == Err::<Seq<char>, LineError>(LineError::TooLong),
        line_taken(stream) == 257,
{
    stream.index_of_first_ensures(10u8);
}

/// A stream that ends before a line feed and before the limit has no line, and
/// all of it is taken.
pub proof fn law_unfinished_line(stream: Seq<u8>)
    requires
        stream.len() <= 256,
        !stream.contains(10u8),
    ensures
        line_of(stream) == Err::<Seq<char>, LineError>(LineError::Eof),
        line_taken(stream) == stream.len(),
{
    stream.index_of_first_ensures(10u8);
}

/// An outcome is what its variant says, with the characters of its line.
pub proof fn law_line_view(s: String, e: LineError)
    ensures
        line_view(Ok(s)) == Ok::<Seq<char>, LineError>(s@),
        line_view(Err(e)) == Err::<Seq<char>, LineError>(e),
{
}

} // verus!

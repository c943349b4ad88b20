//! The base protocol's framing: a `Content-Length` header in front of each JSON payload,
//! so that many messages can share one byte stream. What the payload says as JSON is
//! not read here.
use vstd::prelude::*;
use vstd::utf8::{
    decode_utf8, encode_utf8, encode_utf8_decode_utf8, encode_utf8_valid_utf8, is_ascii_chars,
    is_ascii_chars_encode_utf8, valid_utf8,
};

use crate::text::{
    chars_of, decimal, first_index_of, lemma_first_index, parse_usize, push_all, push_decimal,
    push_str, slice_of, string_of, trim, trimmed, unsigned_value,
};

verus! {

/// Bytes received from a server, and how far they have been read.
#[derive(Debug)]
pub struct ByteStream {
    bytes: Vec<u8>,
    position: usize,
}

/// Why no frame could be read.
#[derive(Debug, PartialEq, Eq)]
pub enum FramingError {
    /// The input ended between two frames: the server has exited.
    ServerClosed,
    /// The input ended inside a frame.
    TruncatedFrame,
    /// A header line is not UTF-8.
    UnreadableHeader,
    /// The header has no `Content-Length`.
    MissingContentLength,
    /// The `Content-Length` value is not a number. Holds the value.
    MalformedContentLength { value: String },
    /// The payload is not UTF-8.
    NotUtf8,
}

impl ByteStream {
    #[verifier::type_invariant]
    closed spec fn within(self) -> bool {
        self.position <= self.bytes@.len()
    }

    pub closed spec fn bytes_view(&self) -> Seq<u8> {
        self.bytes@
    }

    pub closed spec fn position_view(&self) -> nat {
        self.position as nat
    }

    /// The bytes not read yet.
    pub open spec fn remaining(&self) -> Seq<u8> {
        self.bytes_view().skip(self.position_view() as int)
    }

    /// A stream over the given bytes, read from the start.
    pub fn new(bytes: &[u8]) -> (stream: ByteStream)
        ensures
            stream.bytes_view() == bytes@,
            stream.position_view() == 0,
            stream.remaining() == bytes@,
    {
        let stream = ByteStream { bytes: vstd::slice::slice_to_vec(bytes), position: 0 };
        assert(stream.bytes_view().skip(0) =~= bytes@);
        stream
    }

    /// The bytes read so far are never more than the bytes received.
    pub fn check_within(&self)
        ensures
            self.position_view() <= self.bytes_view().len(),
    {
        proof {
            use_type_invariant(self);
        }
    }
}

/// The header in front of a payload of `length` bytes.
pub open spec fn frame_header(length: nat) -> Seq<char> {
    "Content-Length: "@ + decimal(length) + "\r\n\r\n"@
}

/// A payload with its header, as bytes.
pub open spec fn frame_of(payload: Seq<char>) -> Seq<u8> {
    encode_utf8(frame_header(encode_utf8(payload).len()) + payload)
}

/// One frame for a payload. The length counts bytes, not characters: a reader counts bytes.
pub fn framed_bytes_of(payload: &str) -> (framed: Vec<u8>)
    requires
        encode_utf8(payload@).len() <= usize::MAX,
    ensures
        framed@ == frame_of(payload@),
{
    let mut text: Vec<char> = Vec::new();
    push_str(&mut text, "Content-Length: ");
    push_decimal(&mut text, payload.len() as u64);
    push_str(&mut text, "\r\n\r\n");
    push_str(&mut text, payload);
    assert(text@ =~= frame_header(encode_utf8(payload@).len()) + payload@);
    let framed = string_of(&text);
    framed.as_str().as_bytes_vec()
}

/// A text with every trailing `\r` and `\n` dropped.
pub open spec fn without_line_end(s: Seq<char>) -> Seq<char>
    decreases s.len(),
{
    if s.len() > 0 && (s.last() == '\r' || s.last() == '\n') {
        without_line_end(s.drop_last())
    } else {
        s
    }
}

/// A character compared without ASCII case.
pub open spec fn folded(c: char) -> u32 {
    if 'A' <= c && c <= 'Z' {
        (c as u32 + 32) as u32
    } else {
        c as u32
    }
}

/// The two texts are equal ignoring ASCII case (`str::eq_ignore_ascii_case`).
pub open spec fn equal_ignoring_ascii_case(a: Seq<char>, b: Seq<char>) -> bool {
    a.len() == b.len() && forall|i: int| 0 <= i < a.len() ==> folded(#[trigger] a[i]) == folded(b[i])
}

/// The value of a `Content-Length` header line, trimmed; `None` for other headers.
pub open spec fn content_length_value(line: Seq<char>) -> Option<Seq<char>> {
    match crate::text::first_index(line, ':') {
        None => None,
        Some(i) => if equal_ignoring_ascii_case(trim(line.take(i as int)), "content-length"@) {
            Some(trim(line.skip(i as int + 1)))
        } else {
            None
        },
    }
}

/// How reading a header from some bytes ended.
pub enum HeaderReading {
    /// The blank line was reached after `consumed` bytes; the last `Content-Length` seen, if any.
    Ended { length: Option<nat>, consumed: nat },
    /// The input ended; whether any header line had been read.
    Exhausted { started: bool },
    NotUtf8,
    /// A `Content-Length` value that is not a number that fits.
    Malformed(Seq<char>),
}

/// The length of the first line, `\n` included; all the bytes when there is no `\n`.
pub open spec fn first_line_len(bytes: Seq<u8>) -> nat {
    match first_byte_index(bytes, 10u8) {
        Some(i) => i + 1,
        None => bytes.len(),
    }
}

/// The index of the first occurrence of `b`, if any.
pub open spec fn first_byte_index(s: Seq<u8>, b: u8) -> Option<nat>
    decreases s.len(),
{
    if s.len() == 0 {
        None
    } else if s[0] == b {
        Some(0)
    } else {
        match first_byte_index(s.drop_first(), b) {
            Some(i) => Some(i + 1),
            None => None,
        }
    }
}

pub proof fn lemma_first_byte_index(s: Seq<u8>, b: u8)
    ensures
        match first_byte_index(s, b) {
            Some(i) => i < s.len() && s[i as int] == b && forall|j: int| 0 <= j < i ==> s[j] != b,
            None => forall|j: int| 0 <= j < s.len() ==> s[j] != b,
        },
    decreases s.len(),
{
    if s.len() > 0 {
        lemma_first_byte_index(s.drop_first(), b);
        if s[0] != b {
            assert forall|j: int| 0 < j < s.len() implies s[j] == s.drop_first()[j - 1] by {}
        }
    }
}

/// Reads header lines from `bytes`, `started` telling whether one was read before and
/// `length` the last `Content-Length` seen.
pub open spec fn read_header(bytes: Seq<u8>, started: bool, length: Option<nat>) -> HeaderReading
    decreases bytes.len(),
{
    if bytes.len() == 0 {
        HeaderReading::Exhausted { started }
    } else {
        let n = first_line_len(bytes);
        let line = bytes.take(n as int);
        if !valid_utf8(line) {
            HeaderReading::NotUtf8
        } else {
            let text = without_line_end(decode_utf8(line));
            if text.len() == 0 {
                HeaderReading::Ended { length, consumed: n }
            } else {
                let next = match content_length_value(text) {
                    Some(v) => match unsigned_value(v) {
                        Some(k) => if k <= usize::MAX {
                            Some(Some(k))
                        } else {
                            None
                        },
                        None => None,
                    },
                    None => Some(length),
                };
                match next {
                    None => HeaderReading::Malformed(content_length_value(text)->Some_0),
                    Some(next_length) => {
                        proof {
                            lemma_first_byte_index(bytes, 10u8);
                        }
                        match read_header(bytes.skip(n as int), true, next_length) {
                            HeaderReading::Ended { length, consumed } => HeaderReading::Ended {
                                length,
                                consumed: consumed + n,
                            },
                            other => other,
                        }
                    },
                }
            }
        }
    }
}

/// How reading one frame from some bytes ends.
pub enum FrameReading {
    /// The payload, and the bytes the frame took.
    Payload(Seq<char>, nat),
    Failed(FramingErrorKind),
}

/// The kinds of [`FramingError`], with the malformed value.
pub enum FramingErrorKind {
    ServerClosed,
    TruncatedFrame,
    UnreadableHeader,
    MissingContentLength,
    MalformedContentLength(Seq<char>),
    NotUtf8,
}

/// The first frame of some bytes.
pub open spec fn frame_reading(bytes: Seq<u8>) -> FrameReading {
    match read_header(bytes, false, None) {
        HeaderReading::Exhausted { started } => FrameReading::Failed(
            if started {
                FramingErrorKind::TruncatedFrame
            } else {
                FramingErrorKind::ServerClosed
            },
        ),
        HeaderReading::NotUtf8 => FrameReading::Failed(FramingErrorKind::UnreadableHeader),
        HeaderReading::Malformed(v) => FrameReading::Failed(
            FramingErrorKind::MalformedContentLength(v),
        ),
        HeaderReading::Ended { length: None, .. } => FrameReading::Failed(
            FramingErrorKind::MissingContentLength,
        ),
        HeaderReading::Ended { length: Some(n), consumed } => if bytes.len() < consumed + n {
            FrameReading::Failed(FramingErrorKind::TruncatedFrame)
        } else {
            let body = bytes.subrange(consumed as int, (consumed + n) as int);
            if valid_utf8(body) {
                FrameReading::Payload(decode_utf8(body), consumed + n)
            } else {
                FrameReading::Failed(FramingErrorKind::NotUtf8)
            }
        },
    }
}

/// The error reports the kind.
pub open spec fn error_is(error: FramingError, kind: FramingErrorKind) -> bool {
    match (error, kind) {
        (FramingError::ServerClosed, FramingErrorKind::ServerClosed) => true,
        (FramingError::TruncatedFrame, FramingErrorKind::TruncatedFrame) => true,
        (FramingError::UnreadableHeader, FramingErrorKind::UnreadableHeader) => true,
        (FramingError::MissingContentLength, FramingErrorKind::MissingContentLength) => true,
        (FramingError::MalformedContentLength { value }, FramingErrorKind::MalformedContentLength(v)) => value@ == v,
        (FramingError::NotUtf8, FramingErrorKind::NotUtf8) => true,
        _ => false,
    }
}

/// The text of some bytes, when they are UTF-8.
///
/// Trusted: `String::from_utf8` accepts exactly the UTF-8 byte sequences and keeps their
/// characters.
#[verifier::external_body]
pub(crate) fn text_of_utf8(bytes: Vec<u8>) -> (text: Option<String>)
    ensures
        text is Some <==> valid_utf8(bytes@),
        text matches Some(t) ==> t@ == decode_utf8(bytes@),
{
    String::from_utf8(bytes).ok()
}

/// Reads the next frame and returns its payload; the stream is left after the frame, so
/// that the next call reads the next one.
///
/// # Errors
///
/// The input ends between frames (the server exited) or inside one; a header line is not
/// UTF-8; `Content-Length` is missing or not a number; the payload is not UTF-8.
pub fn payload_of(reader: &mut ByteStream) -> (result: Result<String, FramingError>)
    ensures
        final(reader).bytes_view() == old(reader).bytes_view(),
        match frame_reading(old(reader).remaining()) {
            FrameReading::Payload(payload, consumed) => result matches Ok(p) && p@ == payload
                && final(reader).position_view() == old(reader).position_view() + consumed,
            FrameReading::Failed(kind) => result matches Err(e) && error_is(e, kind),
        },
{
    let length = match content_length_of(reader) {
        Ok(length) => length,
        Err(error) => {
            return Err(error);
        },
    };
    reader.check_within();
    proof {
        use_type_invariant(&*reader);
    }
    if reader.bytes.len() - reader.position < length {
        return Err(FramingError::TruncatedFrame);
    }
    let start = reader.position;
    let body = slice_of_bytes(&reader.bytes, start, start + length);
    reader.position = start + length;
    proof {
        assert(old(reader).remaining().subrange(
            (start - old(reader).position_view()) as int,
            (start - old(reader).position_view()) + length,
        ) =~= body@);
    }
    match text_of_utf8(body) {
        Some(text) => Ok(text),
        None => Err(FramingError::NotUtf8),
    }
}

/// The bytes `s[from..to]`.
fn slice_of_bytes(s: &Vec<u8>, from: usize, to: usize) -> (r: Vec<u8>)
    requires
        from <= to <= s@.len(),
    ensures
        r@ == s@.subrange(from as int, to as int),
{
    let mut r: Vec<u8> = Vec::new();
    let mut i = from;
    while i < to
        invariant
            from <= i <= to <= s@.len(),
            r@ == s@.subrange(from as int, i as int),
        decreases to - i,
    {
        r.push(s[i]);
        i = i + 1;
        assert(r@ =~= s@.subrange(from as int, i as int));
    }
    r
}

/// The length of the payload a header announces: the last `Content-Length` of the header
/// lines in `header`, read up to its blank line. A caller that reads a frame off a pipe reads
/// the header lines, learns here how many bytes of payload follow, and hands the whole frame
/// to [`payload_of`].
///
/// # Errors
///
/// As [`payload_of`] for a header: no line at all, or no blank line, is the input ending
/// between or inside frames; a line that is not UTF-8; a value that is not a number; no
/// `Content-Length`.
pub fn body_length_of(header: &[u8]) -> (result: Result<usize, FramingError>)
    ensures
        match read_header(header@, false, None) {
            HeaderReading::Ended { length: Some(n), .. } => result matches Ok(k) && k == n,
            HeaderReading::Ended { length: None, .. } => result matches Err(e) && error_is(
                e,
                FramingErrorKind::MissingContentLength,
            ),
            HeaderReading::Exhausted { started } => result matches Err(e) && error_is(
                e,
                if started {
                    FramingErrorKind::TruncatedFrame
                } else {
                    FramingErrorKind::ServerClosed
                },
            ),
            HeaderReading::NotUtf8 => result matches Err(e) && error_is(
                e,
                FramingErrorKind::UnreadableHeader,
            ),
            HeaderReading::Malformed(v) => result matches Err(e) && error_is(
                e,
                FramingErrorKind::MalformedContentLength(v),
            ),
        },
{
    let mut stream = ByteStream::new(header);
    content_length_of(&mut stream)
}

/// Reads the header up to its blank line and returns the `Content-Length` value.
fn content_length_of(reader: &mut ByteStream) -> (result: Result<usize, FramingError>)
    ensures
        final(reader).bytes_view() == old(reader).bytes_view(),
        match read_header(old(reader).remaining(), false, None) {
            HeaderReading::Ended { length: Some(n), consumed } => result matches Ok(k) && k == n
                && final(reader).position_view() == old(reader).position_view() + consumed,
            HeaderReading::Ended { length: None, .. } => result matches Err(e) && error_is(
                e,
                FramingErrorKind::MissingContentLength,
            ),
            HeaderReading::Exhausted { started } => result matches Err(e) && error_is(
                e,
                if started {
                    FramingErrorKind::TruncatedFrame
                } else {
                    FramingErrorKind::ServerClosed
                },
            ),
            HeaderReading::NotUtf8 => result matches Err(e) && error_is(
                e,
                FramingErrorKind::UnreadableHeader,
            ),
            HeaderReading::Malformed(v) => result matches Err(e) && error_is(
                e,
                FramingErrorKind::MalformedContentLength(v),
            ),
        },
{
    proof {
        use_type_invariant(&*reader);
    }
    let mut length: Option<usize> = None;
    let mut started = false;
    let ghost start = reader.position as nat;
    loop
        invariant
            reader.bytes_view() == old(reader).bytes_view(),
            start == old(reader).position_view(),
            start <= reader.position_view() <= reader.bytes_view().len(),
            read_header(old(reader).remaining(), false, None) == match read_header(
                reader.remaining(),
                started,
                match length {
                    Some(k) => Some(k as nat),
                    None => None,
                },
            ) {
                HeaderReading::Ended { length, consumed } => HeaderReading::Ended {
                    length,
                    consumed: (consumed + (reader.position_view() - start)) as nat,
                },
                other => other,
            },
        decreases reader.bytes_view().len() - reader.position_view(),
    {
        let ghost rest = reader.remaining();
        let ghost before = reader.position_view();
        if reader.position == reader.bytes.len() {
            assert(rest.len() == 0);
            if started {
                return Err(FramingError::TruncatedFrame);
            }
            return Err(FramingError::ServerClosed);
        }
        let line_len = line_length_at(&reader.bytes, reader.position);
        let line_bytes = slice_of_bytes(&reader.bytes, reader.position, reader.position + line_len);
        assert(line_bytes@ =~= rest.take(line_len as int));
        let text = match text_of_utf8(line_bytes) {
            Some(text) => chars_of(text.as_str()),
            None => {
                return Err(FramingError::UnreadableHeader);
            },
        };
        let line = without_line_end_of(&text);
        reader.position = reader.position + line_len;
        assert(reader.remaining() =~= rest.skip(line_len as int));
        if line.len() == 0 {
            let ghost total = reader.position_view() - start;
            return match length {
                Some(k) => Ok(k),
                None => Err(FramingError::MissingContentLength),
            };
        }
        started = true;
        match content_length_value_of(&line) {
            Some(value) => {
                match parse_usize(value.as_slice()) {
                    Some(k) => {
                        length = Some(k);
                    },
                    None => {
                        return Err(
                            FramingError::MalformedContentLength { value: string_of(&value) },
                        );
                    },
                }
            },
            None => {},
        }
        proof {
            lemma_first_byte_index(rest, 10u8);
        }
    }
}

/// The length of the line starting at `from`, `\n` included, up to the end of the bytes.
fn line_length_at(bytes: &Vec<u8>, from: usize) -> (n: usize)
    requires
        from < bytes@.len(),
    ensures
        n == first_line_len(bytes@.skip(from as int)),
        0 < n <= bytes@.len() - from,
{
    let ghost rest = bytes@.skip(from as int);
    proof {
        lemma_first_byte_index(rest, 10u8);
    }
    let mut i = from;
    while i < bytes.len()
        invariant
            from <= i <= bytes@.len(),
            rest == bytes@.skip(from as int),
            forall|j: int| 0 <= j < i - from ==> rest[j] != 10u8,
        decreases bytes@.len() - i,
    {
        if bytes[i] == 10u8 {
            proof {
                lemma_first_byte_index(rest, 10u8);
                assert(rest[i - from] == 10u8);
                match first_byte_index(rest, 10u8) {
                    Some(f) => {
                        if f < i - from {
                            assert(rest[f as int] != 10u8);
                        }
                        if f > i - from {
                            assert(rest[i - from] != 10u8);
                        }
                    },
                    None => {},
                }
            }
            return i - from + 1;
        }
        i = i + 1;
    }
    proof {
        lemma_first_byte_index(rest, 10u8);
        if let Some(f) = first_byte_index(rest, 10u8) {
            assert(rest[f as int] == 10u8);
        }
    }
    bytes.len() - from
}

/// The text with every trailing `\r` and `\n` dropped.
fn without_line_end_of(s: &Vec<char>) -> (r: Vec<char>)
    ensures
        r@ == without_line_end(s@),
{
    let mut end = s.len();
    assert(s@.take(end as int) =~= s@);
    while end > 0 && (s[end - 1] == '\r' || s[end - 1] == '\n')
        invariant
            0 <= end <= s@.len(),
            without_line_end(s@) == without_line_end(s@.take(end as int)),
        decreases end,
    {
        assert(s@.take(end as int).drop_last() =~= s@.take(end - 1));
        end = end - 1;
    }
    assert(s@.take(end as int) == without_line_end(s@.take(end as int)));
    slice_of(s, 0, end)
}

/// Whether the character equals the other ignoring ASCII case.
fn same_ignoring_case(a: char, b: char) -> (same: bool)
    ensures
        same == (folded(a) == folded(b)),
{
    let fa: u32 = if 'A' <= a && a <= 'Z' { (a as u32) + 32 } else { a as u32 };
    let fb: u32 = if 'A' <= b && b <= 'Z' { (b as u32) + 32 } else { b as u32 };
    fa == fb
}

/// The value of a `Content-Length` header line, trimmed; `None` for other headers, which
/// the protocol allows alongside it.
fn content_length_value_of(line: &Vec<char>) -> (value: Option<Vec<char>>)
    ensures
        match value {
            Some(v) => content_length_value(line@) == Some(v@),
            None => content_length_value(line@) is None,
        },
{
    let colon = match first_index_of(line, ':') {
        Some(i) => i,
        None => {
            return None;
        },
    };
    proof {
        lemma_first_index(line@, ':');
    }
    let length = line.len();
    assert(colon < length);
    let name = trimmed(&slice_of(line, 0, colon));
    assert(line@.subrange(0, colon as int) =~= line@.take(colon as int));
    let target = chars_of("content-length");
    if name.len() != target.len() {
        return None;
    }
    let after = colon + 1;
    let mut i: usize = 0;
    while i < name.len()
        invariant
            0 <= i <= name@.len(),
            after == colon + 1,
            name@.len() == target@.len(),
            target@ == "content-length"@,
            colon < line@.len(),
            crate::text::first_index(line@, ':') == Some(colon as nat),
            name@ == trim(line@.take(colon as int)),
            forall|j: int| 0 <= j < i ==> folded(#[trigger] name@[j]) == folded(target@[j]),
        decreases name@.len() - i,
    {
        if !same_ignoring_case(name[i], target[i]) {
            return None;
        }
        i = i + 1;
    }
    let value = trimmed(&slice_of(line, after, line.len()));
    assert(line@.subrange(after as int, line@.len() as int) =~= line@.skip(colon + 1));
    Some(value)
}

/// The encoding of two texts one after the other is the two encodings one after the other.
pub proof fn lemma_encode_concat(a: Seq<char>, b: Seq<char>)
    ensures
        encode_utf8(a + b) == encode_utf8(a) + encode_utf8(b),
    decreases a.len(),
{
    if a.len() == 0 {
        assert(a + b =~= b);
        assert(encode_utf8(a) =~= Seq::<u8>::empty());
        assert(encode_utf8(a) + encode_utf8(b) =~= encode_utf8(b));
    } else {
        assert((a + b).drop_first() =~= a.drop_first() + b);
        assert((a + b)[0] == a[0]);
        lemma_encode_concat(a.drop_first(), b);
        assert(encode_utf8(a + b) =~= encode_utf8(a) + encode_utf8(b));
    }
}

/// The first occurrence is at `k` when `bytes[k]` is one and none comes before it.
proof fn lemma_first_byte_at(bytes: Seq<u8>, b: u8, k: nat)
    requires
        k < bytes.len(),
        bytes[k as int] == b,
        forall|j: int| 0 <= j < k ==> bytes[j] != b,
    ensures
        first_byte_index(bytes, b) == Some(k),
{
    lemma_first_byte_index(bytes, b);
    match first_byte_index(bytes, b) {
        Some(i) => {
            if i < k {
                assert(bytes[i as int] == b);
            }
            if i > k {
                assert(bytes[k as int] != b);
            }
        },
        None => {
            assert(bytes[k as int] != b);
        },
    }
}

/// The characters are ASCII and none is a line feed before the last one.
proof fn lemma_ascii_line(line: Seq<char>, rest: Seq<u8>)
    requires
        line.len() > 0,
        is_ascii_chars(line),
        line.last() == '\n',
        forall|j: int| 0 <= j < line.len() - 1 ==> line[j] != '\n',
    ensures
        encode_utf8(line).len() == line.len(),
        first_line_len(encode_utf8(line) + rest) == line.len(),
        (encode_utf8(line) + rest).take(line.len() as int) == encode_utf8(line),
        valid_utf8(encode_utf8(line)),
        decode_utf8(encode_utf8(line)) == line,
{
    is_ascii_chars_encode_utf8(line);
    encode_utf8_valid_utf8(line);
    encode_utf8_decode_utf8(line);
    let bytes = encode_utf8(line) + rest;
    assert forall|j: int| 0 <= j < line.len() - 1 implies bytes[j] != 10u8 by {
        assert(line[j] as u8 == encode_utf8(line)[j]);
        assert(line[j] != '\n');
        assert('\0' <= line[j] <= '\u{7f}');
    }
    assert(bytes[line.len() - 1] == 10u8) by {
        assert(line[line.len() - 1] as u8 == encode_utf8(line)[line.len() - 1]);
    }
    lemma_first_byte_at(bytes, 10u8, (line.len() - 1) as nat);
    assert(bytes.take(line.len() as int) =~= encode_utf8(line));
}

/// What a frame holds reads back: the first frame of a payload's frame, followed by
/// anything, is that payload, and it takes exactly the frame's bytes.
pub proof fn lemma_frame_reads_back(payload: Seq<char>, rest: Seq<u8>)
    requires
        encode_utf8(payload).len() <= usize::MAX,
    ensures
        frame_reading(frame_of(payload) + rest) == FrameReading::Payload(
            payload,
            frame_of(payload).len(),
        ),
{
    let body = encode_utf8(payload);
    let n = body.len();
    let digits = decimal(n);
    crate::text::lemma_decimal_reads_back(n);
    reveal_strlit("Content-Length: ");
    reveal_strlit("\r\n\r\n");
    reveal_strlit("content-length");
    let name = "Content-Length: "@;
    let first = name + digits + seq!['\r', '\n'];
    let second = seq!['\r', '\n'];
    assert(frame_header(n) =~= first + second);
    assert forall|j: int| 0 <= j < digits.len() implies '0' <= #[trigger] digits[j] <= '9' by {
        assert(crate::text::is_digit(digits[j]));
    }
    assert(is_ascii_chars(first));
    assert(is_ascii_chars(second));
    lemma_encode_concat(first + second, payload);
    lemma_encode_concat(first, second);
    let e1 = encode_utf8(first);
    let e2 = encode_utf8(second);
    let bytes = frame_of(payload) + rest;
    assert(bytes =~= e1 + (e2 + body + rest));
    lemma_ascii_line(first, e2 + body + rest);
    lemma_ascii_line(second, body + rest);
    // The first line: `Content-Length: n`.
    let text = without_line_end(first);
    assert(first.drop_last().drop_last() =~= name + digits);
    assert(text == name + digits) by {
        assert(first.last() == '\n');
        assert(without_line_end(first) == without_line_end(first.drop_last()));
        assert(first.drop_last().last() == '\r');
        assert(without_line_end(first.drop_last()) == without_line_end(first.drop_last().drop_last()));
        assert((name + digits).last() == digits.last());
        assert(crate::text::is_digit(digits.last()));
        assert(without_line_end(name + digits) == name + digits);
    }
    assert(crate::text::first_index(text, ':') == Some(14nat)) by {
        crate::text::lemma_first_index(text, ':');
        assert(text[14] == ':');
        match crate::text::first_index(text, ':') {
            Some(i) => {
                if i < 14 {
                    assert(text[i as int] == name[i as int]);
                }
                if i > 14 {
                    assert(text[14] != ':');
                }
            },
            None => {},
        }
    }
    assert(text.take(14) =~= "Content-"@ + "Length"@) by {
        reveal_strlit("Content-");
        reveal_strlit("Length");
    }
    assert(crate::text::trim(text.take(14)) == text.take(14)) by {
        assert(crate::text::leading_space_count(text.take(14)) == 0);
        assert(text.take(14).skip(0) =~= text.take(14));
        assert(crate::text::trailing_space_count(text.take(14)) == 0);
        assert(text.take(14).take(14) =~= text.take(14));
    }
    assert(equal_ignoring_ascii_case(text.take(14), "content-length"@));
    let after = text.skip(15);
    assert(after =~= seq![' '] + digits);
    assert(crate::text::trim(after) == digits) by {
        assert(!crate::text::is_space(digits[0]));
        assert(crate::text::leading_space_count(digits) == 0);
        assert(after.drop_first() =~= digits);
        assert(crate::text::leading_space_count(after) == 1);
        assert(crate::text::trim_start(after) =~= digits);
        assert(!crate::text::is_space(digits.last()));
        assert(crate::text::trailing_space_count(digits) == 0);
        assert(digits.take(digits.len() as int) =~= digits);
    }
    assert(content_length_value(text) == Some(digits));
    // The second line: the blank one.
    assert(without_line_end(second) =~= Seq::<char>::empty()) by {
        assert(second.last() == '\n');
        assert(without_line_end(second) == without_line_end(second.drop_last()));
        assert(second.drop_last() =~= seq!['\r']);
        assert(second.drop_last().last() == '\r');
        assert(without_line_end(second.drop_last()) == without_line_end(
            second.drop_last().drop_last(),
        ));
        assert(second.drop_last().drop_last() =~= Seq::<char>::empty());
    }
    assert(e2 + body + rest =~= e2 + (body + rest));
    assert(first_line_len(e2 + body + rest) == 2);
    assert((e2 + body + rest).take(2) == e2);
    assert(bytes.skip(first.len() as int) =~= e2 + body + rest);
    assert(read_header(e2 + body + rest, true, Some(n)) == HeaderReading::Ended {
        length: Some(n),
        consumed: 2,
    });
    assert(read_header(bytes, false, None) == HeaderReading::Ended {
        length: Some(n),
        consumed: first.len() + 2,
    });
    encode_utf8_valid_utf8(payload);
    encode_utf8_decode_utf8(payload);
    assert(bytes.subrange((first.len() + 2) as int, (first.len() + 2 + n) as int) =~= body);
    assert(frame_of(payload).len() == first.len() + 2 + n);
}

} // verus!

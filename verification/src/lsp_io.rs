//! Message framing: a header block that ends in an empty line and names the
//! length of the body, then exactly that many bytes of body.

use crate::decimal::{decimal_of, parse_u64, push_decimal, unsigned_decimal};
use crate::json::{json_document, json_written, parse, written};
use crate::text::{
    chars_of, lines_of, lowered, split, split_lines, split_on, starts_with_lowered, trim, trimmed,
};
use serde_json::Value;
use vstd::prelude::*;
use vstd::utf8::encode_utf8;

verus! {

/// Why no message could be read from a stream.
#[derive(Clone, Copy, Debug, PartialEq, Eq, Structural)]
pub enum ReadError {
    /// The stream ended before the first byte of a message.
    Eof,
    /// The stream ended inside a header block or inside a body.
    Truncated,
    /// The header block names no usable body length.
    MalformedHeader,
    /// The body is not a JSON document.
    InvalidBody,
}

/// One message cut out of a stream.
pub struct Frame {
    /// The bytes of the body.
    pub body: Vec<u8>,
    /// How many bytes of the stream the header block and the body took.
    pub consumed: usize,
}

/// Each byte read as the character with that code.
pub open spec fn latin1(bytes: Seq<u8>) -> Seq<char> {
    Seq::new(bytes.len(), |i: int| bytes[i] as char)
}

/// Each character written as the byte with its code; meant for ASCII text.
pub open spec fn ascii_bytes(chars: Seq<char>) -> Seq<u8> {
    Seq::new(chars.len(), |i: int| chars[i] as u8)
}

/// Whether the four bytes before position `k` of `s` are CR LF CR LF, the
/// empty line that ends a header block.
pub open spec fn is_header_end(s: Seq<u8>, k: int) -> bool {
    &&& 4 <= k <= s.len()
    &&& s[k - 4] == 13
    &&& s[k - 3] == 10
    &&& s[k - 2] == 13
    &&& s[k - 1] == 10
}

/// The first position at or after `k` at which a header block ends.
pub open spec fn header_end_from(s: Seq<u8>, k: int) -> Option<int>
    decreases s.len() + 1 - k,
{
    if k < 0 || k > s.len() {
        None
    } else if is_header_end(s, k) {
        Some(k)
    } else {
        header_end_from(s, k + 1)
    }
}

/// The length of the header block at the start of `s`, its empty line
/// included; `None` while `s` holds no empty line.
pub open spec fn header_end(s: Seq<u8>) -> Option<int> {
    header_end_from(s, 0)
}

/// Whether a header line names the body length: its first fourteen
/// characters are `content-length`, in capital or small letters.
pub open spec fn names_content_length(line: Seq<char>) -> bool {
    "content-length"@.is_prefix_of(lowered(line))
}

/// The first of `lines`, from index `from` on, that names the body length.
pub open spec fn first_length_line(lines: Seq<Seq<char>>, from: int) -> Option<Seq<char>>
    decreases lines.len() - from,
{
    if from < 0 || from >= lines.len() {
        None
    } else if names_content_length(lines[from]) {
        Some(lines[from])
    } else {
        first_length_line(lines, from + 1)
    }
}

/// The number in a header line: what stands between its first and its
/// second colon, without the white space around it, read as a numeral.
pub open spec fn length_field(line: Seq<char>) -> Option<nat> {
    let fields = split_on(line, ':');
    if fields.len() < 2 {
        None
    } else {
        unsigned_decimal(trimmed(fields[1]))
    }
}

/// The body length that a header block names. The first line that names a
/// length decides; later ones are not looked at.
pub open spec fn content_length(header: Seq<u8>) -> Option<nat> {
    match first_length_line(lines_of(latin1(header)), 0) {
        Some(line) => match length_field(line) {
            Some(n) => if n <= usize::MAX {
                Some(n)
            } else {
                None
            },
            None => None,
        },
        None => None,
    }
}

/// What reading one message from the whole remaining content `s` of a
/// stream gives: the body and the number of bytes taken, or the reason why
/// there is no message.
pub open spec fn frame_of(s: Seq<u8>) -> Result<(Seq<u8>, int), ReadError> {
    if s.len() == 0 {
        Err(ReadError::Eof)
    } else {
        match header_end(s) {
            None => Err(ReadError::Truncated),
            Some(h) => match content_length(s.take(h)) {
                None => Err(ReadError::MalformedHeader),
                Some(n) => if s.len() < h + n {
                    Err(ReadError::Truncated)
                } else {
                    Ok((s.subrange(h, h + n), h + n))
                },
            },
        }
    }
}

/// The header block for a body of `n` bytes.
pub open spec fn header_of(n: nat) -> Seq<u8> {
    ascii_bytes("Content-Length: "@ + decimal_of(n) + "\r\n\r\n"@)
}

/// A body with its header block before it.
pub open spec fn framed(body: Seq<u8>) -> Seq<u8> {
    header_of(body.len()) + body
}

/// Finds where the header block at the start of `input` ends.
pub fn find_header_end(input: &[u8]) -> (r: Option<usize>)
    ensures
        match header_end(input@) {
            Some(k) => r == Some(k as usize) && 4 <= k <= input@.len(),
            None => r is None,
        },
{
    let n: usize = input.len();
    if n < 4 {
        proof {
            lemma_no_header_end(input@, 0);
        }
        return None;
    }
    let mut k: usize = 4;
    proof {
        assert(header_end_from(input@, 0) == header_end_from(input@, 1));
        assert(header_end_from(input@, 1) == header_end_from(input@, 2));
        assert(header_end_from(input@, 2) == header_end_from(input@, 3));
        assert(header_end_from(input@, 3) == header_end_from(input@, 4));
    }
    while k <= n
        invariant
            4 <= k <= n + 1,
            n == input@.len(),
            header_end(input@) == header_end_from(input@, k as int),
        decreases n + 1 - k,
    {
        if input[k - 4] == 13 && input[k - 3] == 10 && input[k - 2] == 13 && input[k - 1] == 10 {
            return Some(k);
        }
        if k == n {
            proof {
                assert(header_end_from(input@, n as int + 1) is None);
            }
            return None;
        }
        k += 1;
    }
    None
}

/// Past the end of `s`, and where fewer than four bytes are left before
/// the end, no header block ends.
proof fn lemma_no_header_end(s: Seq<u8>, k: int)
    requires
        s.len() < 4,
        0 <= k,
    ensures
        header_end_from(s, k) is None,
    decreases s.len() + 1 - k,
{
    if k <= s.len() {
        lemma_no_header_end(s, k + 1);
    }
}

/// The characters with the codes of the bytes of `bytes`.
pub fn latin1_chars(bytes: &[u8]) -> (chars: Vec<char>)
    ensures
        chars@ == latin1(bytes@),
{
    let mut chars: Vec<char> = Vec::new();
    let mut i: usize = 0;
    while i < bytes.len()
        invariant
            i <= bytes.len(),
            chars@.len() == i,
            forall|j: int| 0 <= j < i ==> chars@[j] == bytes@[j] as char,
        decreases bytes.len() - i,
    {
        chars.push(bytes[i] as char);
        i += 1;
    }
    proof {
        assert(chars@ =~= latin1(bytes@));
    }
    chars
}

/// Reads the body length that a header block names.
pub fn parse_content_length(header: &[u8]) -> (r: Option<usize>)
    ensures
        match content_length(header@) {
            Some(n) => r == Some(n as usize),
            None => r is None,
        },
{
    let chars = latin1_chars(header);
    let lines = split_lines(chars.as_slice());
    let name = chars_of("content-length");
    let ghost all = lines_of(latin1(header@));
    let mut i: usize = 0;
    while i < lines.len()
        invariant
            i <= lines@.len(),
            lines@.len() == all.len(),
            forall|j: int| 0 <= j < lines@.len() ==> #[trigger] lines@[j]@ == all[j],
            name@ == "content-length"@,
            all == lines_of(latin1(header@)),
            first_length_line(all, 0) == first_length_line(all, i as int),
        decreases lines.len() - i,
    {
        let line = &lines[i];
        if starts_with_lowered(line.as_slice(), name.as_slice()) {
            let fields = split(line.as_slice(), ':');
            if fields.len() < 2 {
                return None;
            }
            let value = trim(fields[1].as_slice());
            return match parse_u64(value.as_slice()) {
                Some(n) => if n <= usize::MAX as u64 {
                    Some(n as usize)
                } else {
                    None
                },
                None => None,
            };
        }
        i += 1;
    }
    None
}

/// Copies the bytes `s[from..to]`.
pub fn copy_bytes(s: &[u8], from: usize, to: usize) -> (part: Vec<u8>)
    requires
        from <= to <= s.len(),
    ensures
        part@ == s@.subrange(from as int, to as int),
{
    let mut part: Vec<u8> = Vec::new();
    let mut i: usize = from;
    while i < to
        invariant
            from <= i <= to <= s.len(),
            part@ == s@.subrange(from as int, i as int),
        decreases to - i,
    {
        part.push(s[i]);
        i += 1;
    }
    part
}

/// Cuts the first message out of `input`, the whole remaining content of a
/// stream: `Eof` if nothing is left, `Truncated` if the content ends inside
/// the header block or inside the body, `MalformedHeader` if the header
/// block names no length.
pub fn read_frame(input: &[u8]) -> (r: Result<Frame, ReadError>)
    ensures
        match frame_of(input@) {
            Ok((body, used)) => r matches Ok(f) && f.body@ == body && f.consumed == used,
            Err(e) => r == Err::<Frame, ReadError>(e),
        },
{
    if input.len() == 0 {
        return Err(ReadError::Eof);
    }
    let h: usize = match find_header_end(input) {
        Some(h) => h,
        None => {
            return Err(ReadError::Truncated);
        },
    };
    let header = copy_bytes(input, 0, h);
    let n: usize = match parse_content_length(header.as_slice()) {
        Some(n) => n,
        None => {
            return Err(ReadError::MalformedHeader);
        },
    };
    if input.len() - h < n {
        return Err(ReadError::Truncated);
    }
    let body = copy_bytes(input, h, h + n);
    Ok(Frame { body, consumed: h + n })
}

/// Puts the header block before `body`.
pub fn write_frame(body: &[u8]) -> (out: Vec<u8>)
    ensures
        out@ == framed(body@),
{
    let mut head: Vec<char> = chars_of("Content-Length: ");
    push_decimal(&mut head, body.len() as u64);
    let mut end = chars_of("\r\n\r\n");
    head.append(&mut end);
    let mut out: Vec<u8> = Vec::new();
    let mut i: usize = 0;
    while i < head.len()
        invariant
            i <= head.len(),
            out@.len() == i,
            forall|j: int| 0 <= j < i ==> out@[j] == head@[j] as u8,
        decreases head.len() - i,
    {
        out.push(head[i] as u8);
        i += 1;
    }
    proof {
        assert(out@ =~= ascii_bytes(head@));
    }
    let mut rest = copy_bytes(body, 0, body.len());
    proof {
        assert(body@.subrange(0, body@.len() as int) =~= body@);
    }
    out.append(&mut rest);
    out
}

// ------------------------------------------------------ whole messages

/// One message read from a stream.
pub struct Incoming {
    /// The JSON document of the body.
    pub message: Value,
    /// How many bytes of the stream the message took.
    pub consumed: usize,
}

/// What reading one message from the whole remaining content `s` of a
/// stream gives: the document of the first body and the number of bytes
/// taken, or the reason why there is no message. A body that is no JSON
/// document is `InvalidBody`.
pub open spec fn message_of(s: Seq<u8>) -> Result<(Value, int), ReadError> {
    match frame_of(s) {
        Ok((body, used)) => match json_document(body) {
            Some(message) => Ok((message, used)),
            None => Err(ReadError::InvalidBody),
        },
        Err(e) => Err(e),
    }
}

/// Reads the first message of `input`, the whole remaining content of a
/// stream.
pub fn read_lsp_message(input: &[u8]) -> (r: Result<Incoming, ReadError>)
    ensures
        match message_of(input@) {
            Ok((message, used)) => r matches Ok(m) && m.message == message && m.consumed == used,
            Err(e) => r matches Err(f) && f == e,
        },
{
    let frame = match read_frame(input) {
        Ok(frame) => frame,
        Err(e) => {
            return Err(e);
        },
    };
    match parse(frame.body.as_slice()) {
        Some(message) => Ok(Incoming { message, consumed: frame.consumed }),
        None => Err(ReadError::InvalidBody),
    }
}

/// The bytes that carry a JSON text over a stream: the header block and
/// the text in UTF-8.
pub open spec fn framed_text(text: Seq<char>) -> Seq<u8> {
    framed(encode_utf8(text))
}

/// Frames a JSON text.
pub fn frame_text(text: &str) -> (out: Vec<u8>)
    ensures
        out@ == framed_text(text@),
{
    write_frame(text.as_bytes())
}

/// Writes a message as the bytes that carry it over a stream. `None`
/// where the document cannot be written as text.
pub fn write_lsp_message(message: &Value) -> (r: Option<Vec<u8>>)
    ensures
        match json_written(*message) {
            Some(text) => r matches Some(out) && out@ == framed_text(text),
            None => r is None,
        },
{
    match written(message) {
        Some(text) => Some(frame_text(text.as_str())),
        None => None,
    }
}

impl ReadError {
    /// Whether this is a failure of the transport, to be reported; a clean
    /// end of the stream is none.
    pub open spec fn spec_is_failure(self) -> bool {
        self != ReadError::Eof
    }

    /// Whether this is a failure of the transport.
    pub fn is_failure(self) -> (b: bool)
        ensures
            b == self.spec_is_failure(),
    {
        match self {
            ReadError::Eof => false,
            _ => true,
        }
    }
}

} // verus!

//! What holds of framing: a framed body is read back as it was written,
//! and a stream that ends early is told apart from one that ends cleanly.

use crate::decimal::{decimal_of, is_digit, lemma_decimal_of, unsigned_decimal};
use crate::json::json_document;
use crate::lsp_io::{
    content_length, first_length_line, frame_of, framed, framed_text, header_end_from, header_of,
    is_header_end, latin1, length_field, message_of, names_content_length, ReadError,
};
use crate::text::{
    is_space, lemma_leading_spaces, lemma_split_on_append, lemma_split_on_push_sep,
    lemma_split_on_whole, lemma_trailing_spaces, lines_of, lowered, split_on, strip_cr, trimmed,
};
use serde_json::Value;
use vstd::prelude::*;
use vstd::utf8::encode_utf8;

verus! {

/// The header line that names a body of `n` bytes.
pub open spec fn length_line(n: nat) -> Seq<char> {
    "Content-Length: "@ + decimal_of(n)
}

/// The header line is plain ASCII without a line end or a colon after its
/// sixteenth character.
proof fn lemma_length_line(n: nat)
    ensures
        length_line(n).len() == 16 + decimal_of(n).len(),
        decimal_of(n).len() >= 1,
        forall|i: int|
            0 <= i < length_line(n).len() ==> {
                let c = #[trigger] length_line(n)[i];
                c != '\r' && c != '\n' && (c as u32) < 128
            },
        forall|i: int| 16 <= i < length_line(n).len() ==> is_digit(#[trigger] length_line(n)[i]),
        length_line(n).take(16) == "Content-Length: "@,
{
    reveal_strlit("Content-Length: ");
    lemma_decimal_of(n);
    let line = length_line(n);
    let d = decimal_of(n);
    assert forall|i: int| 16 <= i < line.len() implies is_digit(#[trigger] line[i]) by {
        assert(line[i] == d[i - 16]);
    }
    assert forall|i: int| 0 <= i < line.len() implies {
        let c = #[trigger] line[i];
        c != '\r' && c != '\n' && (c as u32) < 128
    } by {
        if i >= 16 {
            assert(is_digit(line[i]));
        }
    }
    assert(line.take(16) =~= "Content-Length: "@);
}

/// The header block, read as characters, is the header line and two line
/// ends; it ends a header block at its end and nowhere before.
proof fn lemma_header_block(n: nat)
    ensures
        latin1(header_of(n)) == length_line(n) + "\r\n\r\n"@,
        header_of(n).len() == length_line(n).len() + 4,
        is_header_end(header_of(n), header_of(n).len() as int),
        forall|i: int|
            0 <= i < length_line(n).len() ==> #[trigger] header_of(n)[i] != 13 && header_of(n)[i]
                != 10,
{
    reveal_strlit("\r\n\r\n");
    lemma_length_line(n);
    let line = length_line(n);
    let chars = line + "\r\n\r\n"@;
    let h = header_of(n);
    assert("Content-Length: "@ + decimal_of(n) + "\r\n\r\n"@ =~= chars);
    assert forall|i: int| 0 <= i < chars.len() implies (#[trigger] chars[i] as u32) < 128 by {
        if i < line.len() {
            assert(chars[i] == line[i]);
        }
    }
    assert forall|i: int| 0 <= i < h.len() implies (#[trigger] h[i]) as char == chars[i] by {
        let c = chars[i];
        let u: u32 = c as u32;
        assert(u < 128);
        vstd::utf8::char_u32_cast(c, u);
        assert(h[i] == c as u8);
        assert(h[i] as u32 == u);
        assert((h[i] as char) == (u as char));
    }
    assert(latin1(h) =~= chars);
    assert forall|i: int| 0 <= i < line.len() implies #[trigger] h[i] != 13 && h[i] != 10 by {
        assert(chars[i] == line[i]);
    }
    let e = h.len() as int;
    assert(chars[e - 4] == '\r');
    assert(chars[e - 3] == '\n');
    assert(chars[e - 2] == '\r');
    assert(chars[e - 1] == '\n');
}

/// The header block has two lines: the header line and an empty one.
proof fn lemma_header_lines(n: nat)
    ensures
        lines_of(length_line(n) + "\r\n\r\n"@) == seq![length_line(n), Seq::<char>::empty()],
{
    reveal_strlit("\r\n\r\n");
    lemma_length_line(n);
    let line = length_line(n);
    let e = Seq::<char>::empty();
    let s1 = line.push('\r');
    let s2 = s1.push('\n');
    let s3 = s2.push('\r');
    let s4 = s3.push('\n');
    assert(line + "\r\n\r\n"@ =~= s4);
    assert forall|i: int| 0 <= i < s1.len() implies s1[i] != '\n' by {
        if i < line.len() {
            assert(s1[i] == line[i]);
        }
    }
    lemma_split_on_whole(s1, '\n');
    lemma_split_on_push_sep(s1, '\n');
    assert(split_on(s2, '\n') =~= seq![s1, e]);
    assert(s3.drop_last() =~= s2);
    assert(split_on(s3, '\n') =~= seq![s1, seq!['\r']]);
    lemma_split_on_push_sep(s3, '\n');
    let pieces = split_on(s4, '\n');
    assert(pieces =~= seq![s1, seq!['\r'], e]);
    assert(strip_cr(s1) =~= line);
    assert(strip_cr(seq!['\r']) =~= e);
    assert(lines_of(s4) =~= seq![line, e]);
}

/// The header line names the length, and the length it names is `n`.
proof fn lemma_length_line_value(n: nat)
    ensures
        names_content_length(length_line(n)),
        length_field(length_line(n)) == Some(n),
{
    reveal_strlit("Content-Length: ");
    reveal_strlit("content-length");
    lemma_length_line(n);
    lemma_decimal_of(n);
    let line = length_line(n);
    let d = decimal_of(n);
    let name = "content-length"@;
    assert(lowered(line).subrange(0, 14) =~= name) by {
        assert forall|i: int| 0 <= i < 14 implies lowered(line)[i] == name[i] by {
            assert(line[i] == "Content-Length: "@[i]);
        }
    }
    let key = line.take(14);
    let value = line.subrange(15, line.len() as int);
    assert(line =~= key.push(':') + value);
    assert forall|i: int| 0 <= i < key.len() implies key[i] != ':' by {
        assert(key[i] == "Content-Length: "@[i]);
    }
    assert forall|i: int| 0 <= i < value.len() implies value[i] != ':' by {
        assert(value[i] == line[i + 15]);
        if i >= 1 {
            assert(is_digit(line[i + 15]));
        }
    }
    lemma_split_on_whole(key, ':');
    lemma_split_on_push_sep(key, ':');
    lemma_split_on_append(key.push(':'), value, ':');
    let fields = split_on(line, ':');
    assert(fields =~= seq![key, value]);
    assert(value =~= seq![' '] + d);
    assert(!is_space(d[0])) by {
        assert(is_digit(d[0]));
    }
    assert(!is_space(d.last())) by {
        assert(is_digit(d[d.len() - 1]));
    }
    lemma_leading_spaces(value, 1);
    let rest = value.subrange(1, value.len() as int);
    assert(rest =~= d);
    lemma_trailing_spaces(d, 0);
    assert(d.subrange(0, d.len() as int) =~= d);
    assert(trimmed(value) =~= d);
    assert(is_digit(d[0]));
    assert(unsigned_decimal(d) == Some(n));
}

/// The header block for `n` bytes names the length `n`.
proof fn lemma_header_names_length(n: nat)
    requires
        n <= usize::MAX,
    ensures
        content_length(header_of(n)) == Some(n),
{
    lemma_header_block(n);
    lemma_header_lines(n);
    lemma_length_line_value(n);
    let lines = lines_of(latin1(header_of(n)));
    assert(lines[0] == length_line(n));
    assert(first_length_line(lines, 0) == Some(length_line(n)));
}

/// Where nothing ends a header block between `k` and `h`, and something
/// does at `h`, the search from `k` finds `h`.
proof fn lemma_header_end_found(s: Seq<u8>, k: int, h: int)
    requires
        0 <= k <= h,
        is_header_end(s, h),
        forall|j: int| k <= j < h ==> !is_header_end(s, j),
    ensures
        header_end_from(s, k) == Some(h),
    decreases h - k,
{
    if k < h {
        lemma_header_end_found(s, k + 1, h);
    }
}

/// Where nothing ends a header block from `k` on, the search finds nothing.
proof fn lemma_header_end_missing(s: Seq<u8>, k: int)
    requires
        0 <= k,
        forall|j: int| k <= j ==> !is_header_end(s, j),
    ensures
        header_end_from(s, k) is None,
    decreases s.len() + 1 - k,
{
    if k <= s.len() {
        lemma_header_end_missing(s, k + 1);
    }
}

/// In a stream that begins with a framed body, no header block ends
/// before the end of the header block that was written.
proof fn lemma_no_early_end(n: nat, s: Seq<u8>, j: int)
    requires
        header_of(n).take(j) == s.take(j),
        0 <= j < header_of(n).len(),
        j <= s.len(),
    ensures
        !is_header_end(s, j),
{
    lemma_header_block(n);
    if j >= 4 {
        let h = header_of(n);
        assert(s[j - 4] == s.take(j)[j - 4]);
        assert(h[j - 4] == h.take(j)[j - 4]);
        assert(h[j - 4] != 13);
    }
}

/// Framing round trip: what was framed is read back exactly. The body is
/// the one that was written, the bytes taken are those that were written,
/// and what follows them in the stream plays no part.
pub proof fn lemma_frame_round_trip(body: Seq<u8>, rest: Seq<u8>)
    requires
        body.len() <= usize::MAX,
    ensures
        frame_of(framed(body) + rest) == Ok::<(Seq<u8>, int), ReadError>(
            (body, framed(body).len() as int),
        ),
{
    let n = body.len();
    let head = header_of(n);
    let h = head.len() as int;
    let s = framed(body) + rest;
    lemma_header_block(n);
    lemma_header_names_length(n);
    assert(s.take(h) =~= head);
    assert(is_header_end(s, h)) by {
        assert(s[h - 4] == head[h - 4]);
        assert(s[h - 3] == head[h - 3]);
        assert(s[h - 2] == head[h - 2]);
        assert(s[h - 1] == head[h - 1]);
    }
    assert forall|j: int| 0 <= j < h implies !is_header_end(s, j) by {
        assert(head.take(j) =~= s.take(j));
        lemma_no_early_end(n, s, j);
    }
    lemma_header_end_found(s, 0, h);
    assert(s.subrange(h, h + n) =~= body);
}

/// Truncation: a stream that ends after some, but not all, bytes of a
/// framed body gives `Truncated`, whether it ends inside the header block
/// or inside the body.
pub proof fn lemma_truncated_frame(body: Seq<u8>, k: int)
    requires
        body.len() <= usize::MAX,
        0 < k < framed(body).len(),
    ensures
        frame_of(framed(body).take(k)) == Err::<(Seq<u8>, int), ReadError>(ReadError::Truncated),
{
    let n = body.len();
    let head = header_of(n);
    let h = head.len() as int;
    let s = framed(body).take(k);
    lemma_header_block(n);
    if k < h {
        assert forall|j: int| 0 <= j implies !is_header_end(s, j) by {
            if j <= k {
                assert(head.take(j) =~= s.take(j));
                lemma_no_early_end(n, s, j);
            }
        }
        lemma_header_end_missing(s, 0);
    } else {
        lemma_header_names_length(n);
        assert(s.take(h) =~= head);
        assert(is_header_end(s, h)) by {
            assert(s[h - 4] == head[h - 4]);
            assert(s[h - 3] == head[h - 3]);
            assert(s[h - 2] == head[h - 2]);
            assert(s[h - 1] == head[h - 1]);
        }
        assert forall|j: int| 0 <= j < h implies !is_header_end(s, j) by {
            assert(head.take(j) =~= s.take(j));
            lemma_no_early_end(n, s, j);
        }
        lemma_header_end_found(s, 0, h);
    }
}

/// A clean end and an early end are never confused: reading gives `Eof`
/// exactly when the stream holds no byte at all.
pub proof fn lemma_eof_only_when_empty(s: Seq<u8>)
    ensures
        frame_of(s) == Err::<(Seq<u8>, int), ReadError>(ReadError::Eof) <==> s.len() == 0,
{
}

/// Round trip of a written message: a message that was written as text
/// and framed is read back as the document that the text holds, with
/// exactly the bytes that were written taken from the stream.
pub proof fn lemma_message_round_trip(text: Seq<char>, rest: Seq<u8>)
    requires
        encode_utf8(text).len() <= usize::MAX,
    ensures
        message_of(framed_text(text) + rest) == match json_document(encode_utf8(text)) {
            Some(message) => Ok::<(Value, int), ReadError>(
                (message, framed_text(text).len() as int),
            ),
            None => Err::<(Value, int), ReadError>(ReadError::InvalidBody),
        },
{
    lemma_frame_round_trip(encode_utf8(text), rest);
}

} // verus!

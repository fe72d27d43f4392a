//! Byte ranges of UTF-8 text.
//!
//! Tokens and path components are kept as byte ranges into a string. This
//! module states what text such a range holds and slices it without
//! panicking.

use vstd::prelude::*;
use vstd::string::StringSliceAdditionalSpecFns;
use vstd::utf8::*;

verus! {

/// True when `start..end` lies inside the encoding of `text` and both ends
/// fall between characters.
pub open spec fn is_span(text: Seq<char>, start: int, end: int) -> bool {
    let bytes = encode_utf8(text);
    &&& 0 <= start <= end <= bytes.len()
    &&& is_char_boundary(bytes, start)
    &&& is_char_boundary(bytes, end)
}

/// The characters that the bytes `start..end` of `text` encode, or `None`
/// when that range is no span of `text`.
pub open spec fn span_text(text: Seq<char>, start: int, end: int) -> Option<Seq<char>> {
    if is_span(text, start, end) {
        Some(decode_utf8(encode_utf8(text).subrange(start, end)))
    } else {
        None
    }
}

/// A boundary of a text is a boundary of each prefix that reaches it.
pub proof fn lemma_boundary_in_prefix(bytes: Seq<u8>, start: int, end: int)
    requires
        valid_utf8(bytes),
        0 <= start <= end <= bytes.len(),
        is_char_boundary(bytes, end),
    ensures
        valid_utf8(bytes.subrange(0, end)),
        is_char_boundary(bytes.subrange(0, end), start) == is_char_boundary(bytes, start),
{
    let prefix = bytes.subrange(0, end);
    valid_utf8_split(bytes, end);
    if start == end {
        is_char_boundary_start_end_of_seq(prefix);
    } else {
        is_char_boundary_iff_not_is_continuation_byte(bytes, start);
        is_char_boundary_iff_not_is_continuation_byte(prefix, start);
    }
}

/// Encoding distributes over concatenation.
pub proof fn lemma_encode_concat(a: Seq<char>, b: Seq<char>)
    ensures
        encode_utf8(a + b) == encode_utf8(a) + encode_utf8(b),
    decreases a.len(),
{
    if a.len() == 0 {
        assert(a + b =~= b);
        assert(encode_utf8(a) + encode_utf8(b) =~= encode_utf8(b));
    } else {
        lemma_encode_concat(a.drop_first(), b);
        assert((a + b).drop_first() =~= a.drop_first() + b);
        assert((a + b)[0] == a[0]);
        assert(encode_utf8(a + b) =~= encode_utf8(a) + encode_utf8(b));
    }
}

/// The end of a valid prefix is a boundary of the whole, and the boundaries
/// inside the prefix stay where they were.
pub proof fn lemma_boundary_in_concat(head: Seq<u8>, tail: Seq<u8>, index: int)
    requires
        valid_utf8(head),
        valid_utf8(tail),
        0 <= index <= head.len(),
    ensures
        valid_utf8(head + tail),
        is_char_boundary(head + tail, head.len() as int),
        is_char_boundary(head + tail, index) == is_char_boundary(head, index),
{
    let whole = head + tail;
    valid_utf8_concat(head, tail);
    assert(whole.subrange(0, head.len() as int) =~= head);
    if tail.len() == 0 {
        assert(whole =~= head);
        is_char_boundary_start_end_of_seq(head);
    } else {
        is_char_boundary_start_end_of_seq(tail);
        is_char_boundary_iff_not_is_continuation_byte(tail, 0);
        is_char_boundary_iff_not_is_continuation_byte(whole, head.len() as int);
    }
    if index == head.len() {
        is_char_boundary_start_end_of_seq(head);
    } else {
        is_char_boundary_iff_not_is_continuation_byte(whole, index);
        is_char_boundary_iff_not_is_continuation_byte(head, index);
    }
}

/// Appending to a text adds its encoding as a span at the end and keeps
/// every span that the text had.
pub proof fn lemma_span_after_append(text: Seq<char>, more: Seq<char>)
    ensures
        encode_utf8(text + more).len() == encode_utf8(text).len() + encode_utf8(more).len(),
        span_text(
            text + more,
            encode_utf8(text).len() as int,
            encode_utf8(text + more).len() as int,
        ) == Some(more),
        forall|start: int, end: int| #[trigger]
            is_span(text, start, end) ==> span_text(text + more, start, end) == span_text(
                text,
                start,
                end,
            ),
{
    let head = encode_utf8(text);
    let tail = encode_utf8(more);
    let whole = encode_utf8(text + more);
    lemma_encode_concat(text, more);
    encode_utf8_valid_utf8(text);
    encode_utf8_valid_utf8(more);
    encode_utf8_valid_utf8(text + more);
    lemma_boundary_in_concat(head, tail, 0);
    is_char_boundary_start_end_of_seq(whole);
    assert(whole.subrange(head.len() as int, whole.len() as int) =~= tail);
    encode_utf8_decode_utf8(more);
    assert forall|start: int, end: int| #[trigger] is_span(text, start, end) implies span_text(
        text + more,
        start,
        end,
    ) == span_text(text, start, end) by {
        lemma_boundary_in_concat(head, tail, start);
        lemma_boundary_in_concat(head, tail, end);
        assert(whole.subrange(start, end) =~= head.subrange(start, end));
    }
}

/// The position after an ASCII byte lies between two characters.
pub proof fn lemma_boundary_after_ascii(bytes: Seq<u8>, at: int)
    requires
        valid_utf8(bytes),
        0 <= at < bytes.len(),
        bytes[at] <= 0x7f,
    ensures
        is_char_boundary(bytes, at),
        is_char_boundary(bytes, at + 1),
{
    is_char_boundary_iff_not_is_continuation_byte(bytes, at);
    valid_utf8_split(bytes, at);
    let rest = bytes.subrange(at, bytes.len() as int);
    assert(rest[0] == bytes[at]);
    let after = pop_first_scalar(rest);
    assert(after =~= bytes.subrange(at + 1, bytes.len() as int));
    if at + 1 == bytes.len() {
        is_char_boundary_start_end_of_seq(bytes);
    } else {
        assert(after[0] == bytes[at + 1]);
        is_char_boundary_iff_not_is_continuation_byte(after, 0);
        is_char_boundary_iff_not_is_continuation_byte(bytes, at + 1);
    }
}

/// A position that holds no continuation byte, or the end of the text, lies
/// between two characters.
pub proof fn lemma_boundary_at_leading(bytes: Seq<u8>, at: int)
    requires
        valid_utf8(bytes),
        0 <= at <= bytes.len(),
        at < bytes.len() ==> !is_continuation_byte(bytes[at]),
    ensures
        is_char_boundary(bytes, at),
{
    if at == bytes.len() {
        is_char_boundary_start_end_of_seq(bytes);
    } else {
        is_char_boundary_iff_not_is_continuation_byte(bytes, at);
    }
}

/// The text that the bytes `start..end` of `s` hold, where that range is a
/// span of `s`.
pub fn slice_of<'a>(s: &'a str, start: usize, end: usize) -> (r: Option<&'a str>)
    ensures
        match span_text(s@, start as int, end as int) {
            Some(text) => r matches Some(t) && t@ == text,
            None => r is None,
        },
{
    proof {
        encode_utf8_valid_utf8(s@);
    }
    if start <= end && s.is_char_boundary(end) && s.is_char_boundary(start) {
        proof {
            lemma_boundary_in_prefix(s.spec_bytes(), start as int, end as int);
        }
        let (head, _) = s.split_at(end);
        let (_, found) = head.split_at(start);
        proof {
            assert(found.spec_bytes() =~= s.spec_bytes().subrange(start as int, end as int));
            encode_utf8_decode_utf8(found@);
        }
        Some(found)
    } else {
        None
    }
}

/// Whether two strings hold the same text.
pub fn same_text(a: &str, b: &str) -> (r: bool)
    ensures
        r == (a@ == b@),
{
    let x = a.as_bytes();
    let y = b.as_bytes();
    proof {
        encode_utf8_decode_utf8(a@);
        encode_utf8_decode_utf8(b@);
    }
    if x.len() != y.len() {
        return false;
    }
    let mut i: usize = 0;
    while i < x.len()
        invariant
            i <= x.len(),
            x.len() == y.len(),
            x@ == encode_utf8(a@),
            y@ == encode_utf8(b@),
            forall|k: int| 0 <= k < i ==> x@[k] == y@[k],
        decreases x.len() - i,
    {
        if x[i] != y[i] {
            return false;
        }
        i += 1;
    }
    assert(x@ =~= y@);
    true
}

/// The digit that stands for a number below ten.
pub open spec fn digit(value: nat) -> Seq<char> {
    if value == 0 {
        "0"@
    } else if value == 1 {
        "1"@
    } else if value == 2 {
        "2"@
    } else if value == 3 {
        "3"@
    } else if value == 4 {
        "4"@
    } else if value == 5 {
        "5"@
    } else if value == 6 {
        "6"@
    } else if value == 7 {
        "7"@
    } else if value == 8 {
        "8"@
    } else {
        "9"@
    }
}

/// A number in decimal digits, without leading zeros.
pub open spec fn decimal(value: nat) -> Seq<char>
    decreases value,
{
    if value < 10 {
        digit(value)
    } else {
        decimal(value / 10) + digit(value % 10)
    }
}

fn digit_of(value: u32) -> (text: &'static str)
    requires
        value < 10,
    ensures
        text@ == digit(value as nat),
{
    if value == 0 {
        "0"
    } else if value == 1 {
        "1"
    } else if value == 2 {
        "2"
    } else if value == 3 {
        "3"
    } else if value == 4 {
        "4"
    } else if value == 5 {
        "5"
    } else if value == 6 {
        "6"
    } else if value == 7 {
        "7"
    } else if value == 8 {
        "8"
    } else {
        "9"
    }
}

/// Writes a number in decimal digits.
pub fn decimal_string(value: u32) -> (text: String)
    ensures
        text@ == decimal(value as nat),
    decreases value,
{
    if value < 10 {
        String::from_str(digit_of(value))
    } else {
        decimal_string(value / 10).concat(digit_of(value % 10))
    }
}

} // verus!

//! Helpers for working with `&str` by byte offsets.
//!
//! The scanner walks the UTF-8 bytes of its source and cuts lexemes out of it
//! by byte range. The lemmas here show when a byte offset is a character
//! boundary, so that cutting there is allowed.

use vstd::prelude::*;
use vstd::string::*;
use vstd::utf8::*;

verus! {

/// The UTF-8 bytes of a piece of text.
pub open spec fn bytes_of(s: &str) -> Seq<u8> {
    s.spec_bytes()
}

/// `i` is an offset at which `bytes` may be cut: the end, or the first byte of
/// a character.
pub open spec fn at_boundary(bytes: Seq<u8>, i: int) -> bool {
    0 <= i <= bytes.len() && (i < bytes.len() ==> !is_continuation_byte(bytes[i]))
}

/// The bytes of any text are valid UTF-8.
pub proof fn lemma_bytes_valid(s: &str)
    ensures
        valid_utf8(bytes_of(s)),
{
    encode_utf8_valid_utf8(s@);
}

/// The text is recovered from its bytes by decoding.
pub proof fn lemma_bytes_decode(s: &str)
    ensures
        decode_utf8(bytes_of(s)) == s@,
{
    encode_utf8_decode_utf8(s@);
}

/// In valid UTF-8, `at_boundary` agrees with the character boundaries.
pub proof fn lemma_at_boundary(bytes: Seq<u8>, i: int)
    requires
        valid_utf8(bytes),
        0 <= i <= bytes.len(),
    ensures
        at_boundary(bytes, i) <==> is_char_boundary(bytes, i),
{
    if i < bytes.len() {
        is_char_boundary_iff_not_is_continuation_byte(bytes, i);
    } else {
        is_char_boundary_start_end_of_seq(bytes);
    }
}

/// In valid UTF-8, the offset after a one-byte character is a boundary.
pub proof fn lemma_boundary_after_ascii(bytes: Seq<u8>, i: int)
    requires
        valid_utf8(bytes),
        0 <= i < bytes.len(),
        bytes[i] < 0x80,
    ensures
        at_boundary(bytes, i + 1),
{
    lemma_at_boundary(bytes, i);
    valid_utf8_split(bytes, i);
    let rest = bytes.subrange(i, bytes.len() as int);
    assert(rest[0] == bytes[i]);
    assert(valid_utf8(rest));
    assert(length_of_first_scalar(rest) == 1);
    let tail = pop_first_scalar(rest);
    assert(valid_utf8(tail));
    assert(tail =~= bytes.subrange(i + 1, bytes.len() as int));
    if i + 1 < bytes.len() {
        assert(tail[0] == bytes[i + 1]);
        assert(is_char_boundary(tail, 0));
        is_char_boundary_iff_not_is_continuation_byte(tail, 0);
    }
}

/// Cuts the bytes `from..to` out of `s`.
pub fn slice<'a>(s: &'a str, from: usize, to: usize) -> (piece: &'a str)
    requires
        from <= to <= bytes_of(s).len(),
        at_boundary(bytes_of(s), from as int),
        at_boundary(bytes_of(s), to as int),
    ensures
        bytes_of(piece) == bytes_of(s).subrange(from as int, to as int),
        piece@ == decode_utf8(bytes_of(s).subrange(from as int, to as int)),
{
    proof {
        lemma_bytes_valid(s);
        lemma_at_boundary(bytes_of(s), to as int);
    }
    let (head, _) = s.split_at(to);
    proof {
        lemma_bytes_valid(head);
        assert(bytes_of(head) =~= bytes_of(s).subrange(0, to as int));
        if from < to {
            assert(bytes_of(head)[from as int] == bytes_of(s)[from as int]);
        }
        lemma_at_boundary(bytes_of(head), from as int);
    }
    let (_, piece) = head.split_at(from);
    proof {
        assert(bytes_of(piece) =~= bytes_of(s).subrange(from as int, to as int));
        lemma_bytes_decode(piece);
    }
    piece
}

/// Whether two pieces of text hold the same characters.
pub fn same_text(a: &str, b: &str) -> (same: bool)
    ensures
        same == (a@ == b@),
{
    let x = a.as_bytes();
    let y = b.as_bytes();
    proof {
        lemma_bytes_decode(a);
        lemma_bytes_decode(b);
    }
    if x.len() != y.len() {
        return false;
    }
    let mut i: usize = 0;
    while i < x.len()
        invariant
            i <= x.len(),
            x.len() == y.len(),
            x@ == bytes_of(a),
            y@ == bytes_of(b),
            forall|k: int| 0 <= k < i ==> x@[k] == y@[k],
        decreases x.len() - i,
    {
        if x[i] != y[i] {
            return false;
        }
        i += 1;
    }
    assert(x@ =~= y@);
    true
}

/// The byte of a double quote.
pub const QUOTE: u8 = 0x22;

/// The first offset from `i` on that holds no quote.
pub open spec fn quotes_end(s: Seq<u8>, i: int) -> int
    decreases s.len() - i,
{
    if 0 <= i < s.len() && s[i] == QUOTE {
        quotes_end(s, i + 1)
    } else {
        i
    }
}

/// The least offset, from `j` down to `from`, with only quotes between it
/// and `j`.
pub open spec fn quotes_start(s: Seq<u8>, from: int, j: int) -> int
    decreases j - from,
{
    if from < j <= s.len() && s[j - 1] == QUOTE {
        quotes_start(s, from, j - 1)
    } else {
        j
    }
}

/// A text without the quotes at its start and at its end.
pub open spec fn unquoted(text: Seq<char>) -> Seq<char> {
    let s = encode_utf8(text);
    let from = quotes_end(s, 0);
    decode_utf8(s.subrange(from, quotes_start(s, from, s.len() as int)))
}

/// The text without the quotes at its start and at its end.
pub fn unquote(text: &str) -> (inner: String)
    ensures
        inner@ == unquoted(text@),
{
    let bytes = text.as_bytes();
    let n = bytes.len();
    proof {
        lemma_bytes_valid(text);
        lemma_at_boundary(bytes@, 0);
    }
    let mut from: usize = 0;
    while from < n && bytes[from] == QUOTE
        invariant
            bytes@ == bytes_of(text),
            valid_utf8(bytes@),
            n == bytes@.len(),
            from <= n,
            at_boundary(bytes@, from as int),
            quotes_end(bytes@, from as int) == quotes_end(bytes@, 0),
        decreases n - from,
    {
        proof {
            lemma_boundary_after_ascii(bytes@, from as int);
        }
        from += 1;
    }
    let mut to: usize = n;
    while from < to && bytes[to - 1] == QUOTE
        invariant
            bytes@ == bytes_of(text),
            n == bytes@.len(),
            from <= to <= n,
            at_boundary(bytes@, to as int),
            quotes_start(bytes@, from as int, to as int) == quotes_start(
                bytes@,
                from as int,
                n as int,
            ),
        decreases to - from,
    {
        to -= 1;
    }
    slice(text, from, to).to_owned()
}

/// The character of a decimal digit.
pub open spec fn digit_char(d: int) -> char {
    if d == 0 {
        '0'
    } else if d == 1 {
        '1'
    } else if d == 2 {
        '2'
    } else if d == 3 {
        '3'
    } else if d == 4 {
        '4'
    } else if d == 5 {
        '5'
    } else if d == 6 {
        '6'
    } else if d == 7 {
        '7'
    } else if d == 8 {
        '8'
    } else {
        '9'
    }
}

/// A number written in decimal, without leading zeros.
pub open spec fn decimal(n: nat) -> Seq<char>
    decreases n,
{
    if n < 10 {
        seq![digit_char(n as int)]
    } else {
        decimal(n / 10).push(digit_char((n % 10) as int))
    }
}

/// So many zeros.
pub open spec fn zeros(count: int) -> Seq<char> {
    Seq::new(
        if count > 0 {
            count as nat
        } else {
            0
        },
        |i: int| '0',
    )
}

/// A number written in decimal, with zeros before it up to `width`
/// characters.
pub open spec fn padded(n: nat, width: nat) -> Seq<char> {
    zeros(width - decimal(n).len()) + decimal(n)
}

fn digit_text(d: u64) -> (text: &'static str)
    requires
        d < 10,
    ensures
        text@ == seq![digit_char(d as int)],
{
    proof {
        reveal_strlit("0");
        reveal_strlit("1");
        reveal_strlit("2");
        reveal_strlit("3");
        reveal_strlit("4");
        reveal_strlit("5");
        reveal_strlit("6");
        reveal_strlit("7");
        reveal_strlit("8");
        reveal_strlit("9");
    }
    let text = if d == 0 {
        "0"
    } else if d == 1 {
        "1"
    } else if d == 2 {
        "2"
    } else if d == 3 {
        "3"
    } else if d == 4 {
        "4"
    } else if d == 5 {
        "5"
    } else if d == 6 {
        "6"
    } else if d == 7 {
        "7"
    } else if d == 8 {
        "8"
    } else {
        "9"
    };
    assert(text@ =~= seq![digit_char(d as int)]);
    text
}

/// Writes `n` in decimal. Also gives the number of characters.
pub fn decimal_text(n: u64) -> (written: (String, usize))
    ensures
        written.0@ == decimal(n as nat),
        written.1 == decimal(n as nat).len(),
        written.1 <= 20,
    decreases n,
{
    if n < 10 {
        (digit_text(n).to_owned(), 1)
    } else {
        let (front, length) = decimal_text(n / 10);
        proof {
            lemma_decimal_length(n / 10);
            lemma_decimal_length(n);
        }
        let text = front.concat(digit_text(n % 10));
        assert(text@ =~= decimal(n as nat));
        (text, length + 1)
    }
}

/// A number below 2^64 has at most 20 digits.
proof fn lemma_decimal_length(n: u64)
    ensures
        decimal(n as nat).len() <= 20,
{
    reveal_with_fuel(decimal, 21);
}

/// Writes `n` in decimal, with zeros before it up to `width` characters.
pub fn padded_text(n: u64, width: usize) -> (text: String)
    ensures
        text@ == padded(n as nat, width as nat),
{
    let (digits, length) = decimal_text(n);
    let mut text = String::new();
    let mut count = length;
    while count < width
        invariant
            length <= count,
            count <= width || count == length,
            text@ =~= zeros(count - length),
        decreases width - count,
    {
        proof {
            reveal_strlit("0");
        }
        text.append("0");
        count += 1;
    }
    let text = text.concat(digits.as_str());
    assert(text@ =~= padded(n as nat, width as nat));
    text
}

/// A piece of valid UTF-8 that is cut at boundaries is valid UTF-8, and is
/// what its text encodes to.
pub proof fn lemma_piece_valid(bytes: Seq<u8>, from: int, to: int)
    requires
        valid_utf8(bytes),
        from <= to,
        at_boundary(bytes, from),
        at_boundary(bytes, to),
    ensures
        valid_utf8(bytes.subrange(from, to)),
        encode_utf8(decode_utf8(bytes.subrange(from, to))) == bytes.subrange(from, to),
{
    lemma_at_boundary(bytes, to);
    valid_utf8_split(bytes, to);
    let head = bytes.subrange(0, to);
    if from < to {
        assert(head[from] == bytes[from]);
    }
    lemma_at_boundary(head, from);
    valid_utf8_split(head, from);
    assert(head.subrange(from, head.len() as int) =~= bytes.subrange(from, to));
    decode_utf8_encode_utf8(bytes.subrange(from, to));
}

} // verus!

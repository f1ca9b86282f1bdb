//! Customer and vessel identifiers: 128-bit UUIDs, read from and written in
//! the hyphenated notation `8-4-4-4-12` of hexadecimal digits.

use vstd::prelude::*;
use crate::text::spells;

verus! {

/// A universally unique identifier, as its sixteen bytes.
#[derive(Clone, Copy, Debug, PartialEq, Eq)]
pub struct Uuid {
    pub bytes: [u8; 16],
}

impl View for Uuid {
    type V = Seq<u8>;

    open spec fn view(&self) -> Seq<u8> {
        self.bytes@
    }
}

/// The lower-case hexadecimal digit that stands for `n`.
pub open spec fn hex_digit(n: int) -> char
    recommends
        0 <= n < 16,
{
    seq!['0', '1', '2', '3', '4', '5', '6', '7', '8', '9', 'a', 'b', 'c', 'd', 'e', 'f'][n]
}

/// Two lower-case hexadecimal digits for each byte, the high half first.
pub open spec fn hex(bytes: Seq<u8>) -> Seq<char> {
    Seq::new(
        2 * bytes.len(),
        |i: int|
            if i % 2 == 0 {
                hex_digit(bytes[i / 2] as int / 16)
            } else {
                hex_digit(bytes[i / 2] as int % 16)
            },
    )
}

/// The hyphenated notation of sixteen bytes: their 32 hexadecimal digits in
/// groups of 8, 4, 4, 4 and 12, with a hyphen between two groups.
pub open spec fn hyphenated(bytes: Seq<u8>) -> Seq<char> {
    hex(bytes.subrange(0, 4)) + seq!['-'] + hex(bytes.subrange(4, 6)) + seq!['-'] + hex(
        bytes.subrange(6, 8),
    ) + seq!['-'] + hex(bytes.subrange(8, 10)) + seq!['-'] + hex(bytes.subrange(10, 16))
}

/// What a hexadecimal digit, in either case, stands for.
pub open spec fn hex_value(c: char) -> int {
    if '0' <= c && c <= '9' {
        c as int - '0' as int
    } else if 'a' <= c && c <= 'f' {
        c as int - 'a' as int + 10
    } else {
        c as int - 'A' as int + 10
    }
}

pub open spec fn is_hex_digit(c: char) -> bool {
    ('0' <= c && c <= '9') || ('a' <= c && c <= 'f') || ('A' <= c && c <= 'F')
}

pub open spec fn is_hyphen_position(i: int) -> bool {
    i == 8 || i == 13 || i == 18 || i == 23
}

/// Where in the hyphenated notation the first digit of byte `j` stands.
pub open spec fn digit_position(j: int) -> int {
    2 * j + if j < 4 {
        0int
    } else if j < 6 {
        1int
    } else if j < 8 {
        2int
    } else if j < 10 {
        3int
    } else {
        4int
    }
}

/// `text` is a UUID in hyphenated notation: 36 characters, hyphens at the
/// four group boundaries, hexadecimal digits of either case elsewhere.
pub open spec fn is_hyphenated(text: Seq<char>) -> bool {
    &&& text.len() == 36
    &&& forall|i: int|
        0 <= i < 36 ==> if is_hyphen_position(i) {
            #[trigger] text[i] == '-'
        } else {
            is_hex_digit(text[i])
        }
}

/// The sixteen bytes that a text in hyphenated notation spells.
pub open spec fn hyphenated_bytes(text: Seq<char>) -> Seq<u8> {
    Seq::new(
        16,
        |j: int|
            (16 * hex_value(text[digit_position(j)]) + hex_value(text[digit_position(j) + 1])) as u8,
    )
}

/// The sixteen bytes that 32 hexadecimal digits spell.
pub open spec fn simple_bytes(text: Seq<char>) -> Seq<u8> {
    Seq::new(16, |j: int| (16 * hex_value(text[2 * j]) + hex_value(text[2 * j + 1])) as u8)
}

/// Every character of `text` takes one byte.
pub open spec fn is_ascii_text(text: Seq<char>) -> bool {
    forall|i: int| 0 <= i < text.len() ==> (#[trigger] text[i]) as int <= 127
}

pub open spec fn all_hex(text: Seq<char>) -> bool {
    forall|i: int| 0 <= i < text.len() ==> is_hex_digit(#[trigger] text[i])
}

/// The bytes that `text` spells in hyphenated notation, if it has that
/// shape.
pub open spec fn read_hyphenated(text: Seq<char>) -> Option<Seq<u8>> {
    if is_hyphenated(text) {
        Some(hyphenated_bytes(text))
    } else {
        None
    }
}

/// The UUID that a text denotes, in any of four notations: 32 bare digits;
/// the hyphenated notation; that in braces; or that after `urn:uuid:`, the
/// prefix in either case. Nothing else denotes a UUID.
pub open spec fn read_uuid(text: Seq<char>) -> Option<Seq<u8>> {
    if !is_ascii_text(text) {
        None
    } else if text.len() == 32 {
        if all_hex(text) {
            Some(simple_bytes(text))
        } else {
            None
        }
    } else if text.len() == 36 {
        read_hyphenated(text)
    } else if text.len() == 38 && text[0] == '{' && text[37] == '}' {
        read_hyphenated(text.subrange(1, 37))
    } else if text.len() == 45 && spells(
        text.take(9),
        seq!['u', 'r', 'n', ':', 'u', 'u', 'i', 'd', ':'],
        seq!['U', 'R', 'N', ':', 'U', 'U', 'I', 'D', ':'],
    ) {
        read_hyphenated(text.skip(9))
    } else {
        None
    }
}

/// `uuid::Uuid::parse_str`, with the UUID given as its bytes.
///
/// Taken on trust: the parser reads exactly what [`read_uuid`] says. It
/// tells the notation by the input's length in bytes (32, 36, 38 or 45),
/// checks braces, prefix and hyphens, and takes hexadecimal digits of either
/// case, the high half of a byte first; a text with a character of more
/// than one byte never passes.
#[verifier::external_body]
fn parse_uuid(text: &str) -> (r: Result<[u8; 16], uuid::Error>)
    ensures
        r matches Ok(bytes) ==> read_uuid(text@) == Some(bytes@),
        r is Err ==> read_uuid(text@) is None,
{
    match uuid::Uuid::parse_str(text) {
        Ok(id) => Ok(id.into_bytes()),
        Err(e) => Err(e),
    }
}

fn hex_digit_of(n: u8) -> (c: char)
    requires
        n < 16,
    ensures
        c == hex_digit(n as int),
{
    if n == 0 {
        '0'
    } else if n == 1 {
        '1'
    } else if n == 2 {
        '2'
    } else if n == 3 {
        '3'
    } else if n == 4 {
        '4'
    } else if n == 5 {
        '5'
    } else if n == 6 {
        '6'
    } else if n == 7 {
        '7'
    } else if n == 8 {
        '8'
    } else if n == 9 {
        '9'
    } else if n == 10 {
        'a'
    } else if n == 11 {
        'b'
    } else if n == 12 {
        'c'
    } else if n == 13 {
        'd'
    } else if n == 14 {
        'e'
    } else {
        'f'
    }
}

/// Appends the hexadecimal digits of `bytes[from..to]` to `out`.
fn push_hex(out: &mut String, bytes: &[u8; 16], from: usize, to: usize)
    requires
        from <= to <= 16,
    ensures
        final(out)@ == old(out)@ + hex(bytes@.subrange(from as int, to as int)),
{
    let mut i: usize = from;
    assert(hex(bytes@.subrange(from as int, from as int)) == Seq::<char>::empty());
    while i < to
        invariant
            from <= i <= to <= 16,
            out@ == old(out)@ + hex(bytes@.subrange(from as int, i as int)),
        decreases to - i,
    {
        let b = bytes[i];
        out.push(hex_digit_of(b / 16));
        out.push(hex_digit_of(b % 16));
        proof {
            let before = bytes@.subrange(from as int, i as int);
            let after = bytes@.subrange(from as int, i + 1);
            assert(hex(after) == hex(before).push(hex_digit(b as int / 16)).push(
                hex_digit(b as int % 16),
            )) by {
                assert forall|k: int| 0 <= k < 2 * before.len() implies hex(after)[k] == hex(
                    before,
                )[k] by {
                    assert(after[k / 2] == before[k / 2]);
                }
                assert(after[i - from] == b);
            }
        }
        i += 1;
    }
}

impl Uuid {
    pub fn from_bytes(bytes: [u8; 16]) -> (id: Uuid)
        ensures
            id@ == bytes@,
    {
        Uuid { bytes }
    }

    pub fn as_bytes(&self) -> (bytes: &[u8; 16])
        ensures
            bytes@ == self@,
    {
        &self.bytes
    }

    /// Reads an identifier from its text.
    pub fn parse_str(text: &str) -> (r: Result<Uuid, uuid::Error>)
        ensures
            r matches Ok(id) ==> read_uuid(text@) == Some(id@),
            r is Err ==> read_uuid(text@) is None,
    {
        match parse_uuid(text) {
            Ok(bytes) => Ok(Uuid { bytes }),
            Err(e) => Err(e),
        }
    }

    /// The identifier in hyphenated lower-case notation.
    pub fn to_hyphenated(&self) -> (text: String)
        ensures
            text@ == hyphenated(self@),
    {
        let mut text = String::new();
        push_hex(&mut text, &self.bytes, 0, 4);
        text.push('-');
        push_hex(&mut text, &self.bytes, 4, 6);
        text.push('-');
        push_hex(&mut text, &self.bytes, 6, 8);
        text.push('-');
        push_hex(&mut text, &self.bytes, 8, 10);
        text.push('-');
        push_hex(&mut text, &self.bytes, 10, 16);
        text
    }
}

/// The character at each position of the hyphenated notation.
pub proof fn lemma_hyphenated_digits(bytes: Seq<u8>)
    requires
        bytes.len() == 16,
    ensures
        hyphenated(bytes).len() == 36,
        forall|i: int| is_hyphen_position(i) ==> #[trigger] hyphenated(bytes)[i] == '-',
        forall|j: int|
            0 <= j < 16 ==> hyphenated(bytes)[#[trigger] digit_position(j)] == hex_digit(
                bytes[j] as int / 16,
            ) && hyphenated(bytes)[digit_position(j) + 1] == hex_digit(bytes[j] as int % 16),
{
    let t = hyphenated(bytes);
    assert forall|j: int| 0 <= j < 16 implies t[#[trigger] digit_position(j)] == hex_digit(
        bytes[j] as int / 16,
    ) && t[digit_position(j) + 1] == hex_digit(bytes[j] as int % 16) by {
        if j < 4 {
            assert(hex(bytes.subrange(0, 4))[2 * j] == hex_digit(bytes[j] as int / 16));
            assert(hex(bytes.subrange(0, 4))[2 * j + 1] == hex_digit(bytes[j] as int % 16));
        } else if j < 6 {
            assert(hex(bytes.subrange(4, 6))[2 * (j - 4)] == hex_digit(bytes[j] as int / 16));
            assert(hex(bytes.subrange(4, 6))[2 * (j - 4) + 1] == hex_digit(bytes[j] as int % 16));
        } else if j < 8 {
            assert(hex(bytes.subrange(6, 8))[2 * (j - 6)] == hex_digit(bytes[j] as int / 16));
            assert(hex(bytes.subrange(6, 8))[2 * (j - 6) + 1] == hex_digit(bytes[j] as int % 16));
        } else if j < 10 {
            assert(hex(bytes.subrange(8, 10))[2 * (j - 8)] == hex_digit(bytes[j] as int / 16));
            assert(hex(bytes.subrange(8, 10))[2 * (j - 8) + 1] == hex_digit(
                bytes[j] as int % 16,
            ));
        } else {
            assert(hex(bytes.subrange(10, 16))[2 * (j - 10)] == hex_digit(bytes[j] as int / 16));
            assert(hex(bytes.subrange(10, 16))[2 * (j - 10) + 1] == hex_digit(
                bytes[j] as int % 16,
            ));
        }
    }
}

/// Writing an identifier and reading it back gives the identifier: the
/// hyphenated notation of sixteen bytes has the shape that the reader
/// accepts, and spells those bytes.
pub proof fn lemma_hyphenated_round_trip(bytes: Seq<u8>)
    requires
        bytes.len() == 16,
    ensures
        is_hyphenated(hyphenated(bytes)),
        hyphenated_bytes(hyphenated(bytes)) == bytes,
        read_uuid(hyphenated(bytes)) == Some(bytes),
{
    lemma_hyphenated_digits(bytes);
    let t = hyphenated(bytes);
    assert forall|n: int| 0 <= n < 16 implies is_hex_digit(#[trigger] hex_digit(n)) && hex_value(
        hex_digit(n),
    ) == n by {}
    assert forall|i: int| 0 <= i < 36 implies if is_hyphen_position(i) {
        #[trigger] t[i] == '-'
    } else {
        is_hex_digit(t[i])
    } by {
        if !is_hyphen_position(i) {
            let k = i - if i < 8 {
                0int
            } else if i < 13 {
                1int
            } else if i < 18 {
                2int
            } else if i < 23 {
                3int
            } else {
                4int
            };
            let j = k / 2;
            assert(i == digit_position(j) + k % 2);
            assert(is_hex_digit(hex_digit(bytes[j] as int / 16)));
            assert(is_hex_digit(hex_digit(bytes[j] as int % 16)));
        }
    }
    assert forall|j: int| 0 <= j < 16 implies #[trigger] hyphenated_bytes(t)[j] == bytes[j] by {
        assert(t[digit_position(j)] == hex_digit(bytes[j] as int / 16));
        assert(hex_value(hex_digit(bytes[j] as int / 16)) == bytes[j] as int / 16);
        assert(hex_value(hex_digit(bytes[j] as int % 16)) == bytes[j] as int % 16);
    }
    assert(hyphenated_bytes(t) =~= bytes);
    lemma_hyphenated_is_ascii(t);
}

/// A text in hyphenated notation has characters of one byte only.
pub proof fn lemma_hyphenated_is_ascii(text: Seq<char>)
    requires
        is_hyphenated(text),
    ensures
        is_ascii_text(text),
{
    assert forall|i: int| 0 <= i < text.len() implies (#[trigger] text[i]) as int <= 127 by {
        if is_hyphen_position(i) {
        } else {
            assert(is_hex_digit(text[i]));
        }
    }
}

/// Two identifiers with the same hyphenated notation are the same.
pub proof fn lemma_hyphenated_injective(a: Seq<u8>, b: Seq<u8>)
    requires
        a.len() == 16,
        b.len() == 16,
        hyphenated(a) == hyphenated(b),
    ensures
        a == b,
{
    lemma_hyphenated_round_trip(a);
    lemma_hyphenated_round_trip(b);
}

} // verus!

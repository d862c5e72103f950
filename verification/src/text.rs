//! Turning the bytes of an NC program file into text: UTF-8, UTF-16 with a byte order
//! mark, or the Windows Cyrillic code page CP1251.
use vstd::prelude::*;
use vstd::utf8::{decode_utf8, encode_utf8, valid_first_scalar, valid_utf8};

use crate::chars::{char_seqs, from_chars, lines_of, split_lines, string_seqs};

verus! {

/// The encodings a program file may be written in.
#[derive(Clone, Copy, Debug, PartialEq, Eq, Structural)]
pub enum TextEncoding {
    Utf8,
    Utf16Le,
    Utf16Be,
    Windows1251,
}

/// What `Encoding::decode` of `encoding_rs` gives for `bytes` in an encoding: the
/// decoded text, with malformed sequences replaced by U+FFFD (and a leading byte order
/// mark, if any, deciding the encoding).
pub uninterp spec fn encoding_decoded(encoding: TextEncoding, bytes: Seq<u8>) -> Seq<char>;

/// Whether a text is empty or starts with an ASCII character (so that none of its
/// encodings starts like a byte order mark).
pub open spec fn ascii_start(t: Seq<char>) -> bool {
    t.len() == 0 || (t[0] as u32) < 0x80
}

/// The UTF-16 code units of a text: one unit per character below U+10000, a surrogate
/// pair for the others.
pub open spec fn utf16_units(t: Seq<char>) -> Seq<u16>
    decreases t.len(),
{
    if t.len() == 0 {
        seq![]
    } else {
        let c = t[0] as u32;
        let first = if c < 0x10000 {
            seq![c as u16]
        } else {
            seq![(0xD800 + (c - 0x10000) / 0x400) as u16, (0xDC00 + (c - 0x10000) % 0x400) as u16]
        };
        first + utf16_units(t.drop_first())
    }
}

/// Code units as bytes, low byte first.
pub open spec fn le_bytes(u: Seq<u16>) -> Seq<u8>
    decreases u.len(),
{
    if u.len() == 0 {
        seq![]
    } else {
        seq![(u[0] % 256) as u8, (u[0] / 256) as u8] + le_bytes(u.drop_first())
    }
}

/// Code units as bytes, high byte first.
pub open spec fn be_bytes(u: Seq<u16>) -> Seq<u8>
    decreases u.len(),
{
    if u.len() == 0 {
        seq![]
    } else {
        seq![(u[0] / 256) as u8, (u[0] % 256) as u8] + be_bytes(u.drop_first())
    }
}

/// What `String::from_utf8_lossy` gives for `bytes`.
pub uninterp spec fn utf8_lossy(bytes: Seq<u8>) -> Seq<char>;

/// Calls `encoding_rs::Encoding::decode` (on `UTF_8`, `UTF_16LE`, `UTF_16BE` or
/// `WINDOWS_1251`) and keeps the text: the result is [`encoding_decoded`] of the
/// encoding and the bytes. Where the bytes start with no byte order mark and are the
/// well-formed encoding of a text in that encoding (UTF-8, or UTF-16 in the given byte
/// order), the result is that text: `decode` looks for a mark first, then decodes. What
/// it gives for other bytes, and for CP1251, is left to the name. `decode` panics when
/// the size of its output buffer overflows a `usize`, which the bound on the length
/// rules out.
#[verifier::external_body]
fn decode(encoding: TextEncoding, bytes: &[u8]) -> (s: String)
    requires
        bytes@.len() <= usize::MAX / 4,
    ensures
        s@ == encoding_decoded(encoding, bytes@),
        encoding == TextEncoding::Utf8 && valid_utf8(bytes@) && !starts_with_bytes(
            bytes@,
            seq![0xEFu8, 0xBBu8, 0xBFu8],
        ) ==> s@ == decode_utf8(bytes@),
        encoding == TextEncoding::Utf16Le ==> forall|t: Seq<char>|
            ascii_start(t) && #[trigger] le_bytes(utf16_units(t)) == bytes@ ==> s@ == t,
        encoding == TextEncoding::Utf16Be ==> forall|t: Seq<char>|
            ascii_start(t) && #[trigger] be_bytes(utf16_units(t)) == bytes@ ==> s@ == t,
{
    let enc = match encoding {
        TextEncoding::Utf8 => encoding_rs::UTF_8,
        TextEncoding::Utf16Le => encoding_rs::UTF_16LE,
        TextEncoding::Utf16Be => encoding_rs::UTF_16BE,
        TextEncoding::Windows1251 => encoding_rs::WINDOWS_1251,
    };
    let (cow, _, _) = enc.decode(bytes);
    cow.into_owned()
}

/// Calls `std::str::from_utf8`: it succeeds exactly on valid UTF-8, and then the text
/// is the decoding of the bytes.
#[verifier::external_body]
fn utf8_to_string(bytes: &[u8]) -> (r: Option<String>)
    ensures
        r is Some <==> valid_utf8(bytes@),
        r matches Some(s) ==> s@ == decode_utf8(bytes@),
{
    match std::str::from_utf8(bytes) {
        Ok(s) => Some(s.to_string()),
        Err(_) => None,
    }
}

/// Calls `String::from_utf8_lossy`: the result is [`utf8_lossy`] of the bytes, and on
/// valid UTF-8 it is the decoding of the bytes.
#[verifier::external_body]
pub(crate) fn decode_utf8_lossy(bytes: &[u8]) -> (s: String)
    ensures
        s@ == utf8_lossy(bytes@),
        valid_utf8(bytes@) ==> s@ == decode_utf8(bytes@),
{
    String::from_utf8_lossy(bytes).into_owned()
}

/// Whether `bytes` starts with the bytes `prefix`.
pub open spec fn starts_with_bytes(bytes: Seq<u8>, prefix: Seq<u8>) -> bool {
    prefix.len() <= bytes.len() && bytes.take(prefix.len() as int) == prefix
}

/// The text of a program file. A UTF-16LE (`FF FE`), UTF-16BE (`FE FF`) or UTF-8
/// (`EF BB BF`) byte order mark selects that encoding for the bytes after it; without
/// one, valid UTF-8 is taken as it is, and anything else is read as CP1251.
pub open spec fn decoded_text(bytes: Seq<u8>) -> Seq<char> {
    if starts_with_bytes(bytes, seq![0xFFu8, 0xFEu8]) {
        encoding_decoded(TextEncoding::Utf16Le, bytes.skip(2))
    } else if starts_with_bytes(bytes, seq![0xFEu8, 0xFFu8]) {
        encoding_decoded(TextEncoding::Utf16Be, bytes.skip(2))
    } else if starts_with_bytes(bytes, seq![0xEFu8, 0xBBu8, 0xBFu8]) {
        encoding_decoded(TextEncoding::Utf8, bytes.skip(3))
    } else if valid_utf8(bytes) {
        decode_utf8(bytes)
    } else {
        encoding_decoded(TextEncoding::Windows1251, bytes)
    }
}

fn skip_bytes(bytes: &[u8], n: usize) -> (r: Vec<u8>)
    requires
        n <= bytes@.len(),
    ensures
        r@ == bytes@.skip(n as int),
{
    let mut r: Vec<u8> = Vec::new();
    let mut i: usize = n;
    while i < bytes.len()
        invariant
            n <= i <= bytes@.len(),
            r@ == bytes@.subrange(n as int, i as int),
        decreases bytes@.len() - i,
    {
        r.push(bytes[i]);
        i += 1;
        assert(r@ =~= bytes@.subrange(n as int, i as int));
    }
    r
}

/// The first byte of each encoding of a text that starts with an ASCII character is
/// that character (UTF-8, UTF-16LE) or zero (UTF-16BE); an empty text has empty
/// encodings.
pub open spec fn first_bytes_plain(t: Seq<char>) -> bool {
    &&& encode_utf8(t).len() == 0 || encode_utf8(t)[0] < 0x80
    &&& le_bytes(utf16_units(t)).len() == 0 || le_bytes(utf16_units(t))[0] < 0x80
    &&& be_bytes(utf16_units(t)).len() == 0 || be_bytes(utf16_units(t))[0] == 0
}

proof fn lemma_first_bytes(t: Seq<char>)
    requires
        ascii_start(t),
    ensures
        first_bytes_plain(t),
{
    if t.len() > 0 {
        let c = t[0] as u32;
        assert(c < 0x80);
        assert((c & 0x7F) == c) by (bit_vector)
            requires
                c < 0x80,
        ;
        assert(encode_utf8(t)[0] == ((c & 0x7F) as u8));
        let u = utf16_units(t);
        assert(u[0] == c as u16);
        assert(le_bytes(u)[0] == (u[0] % 256) as u8);
        assert(be_bytes(u)[0] == (u[0] / 256) as u8);
    }
}

/// Decodes the bytes of a program file (see [`decoded_text`]). A text that is empty or
/// starts with an ASCII character comes back from its own UTF-8 bytes, with or without
/// the UTF-8 mark, and from its UTF-16 bytes after the UTF-16LE or UTF-16BE mark.
pub fn decode_bytes(bytes: &[u8]) -> (s: String)
    requires
        bytes@.len() <= usize::MAX / 4,
    ensures
        s@ == decoded_text(bytes@),
        forall|t: Seq<char>| ascii_start(t) && bytes@ == #[trigger] encode_utf8(t) ==> s@ == t,
        forall|t: Seq<char>|
            ascii_start(t) && bytes@ == seq![0xEFu8, 0xBBu8, 0xBFu8] + #[trigger] encode_utf8(t)
                ==> s@ == t,
        forall|t: Seq<char>|
            ascii_start(t) && bytes@ == seq![0xFFu8, 0xFEu8] + #[trigger] le_bytes(utf16_units(t))
                ==> s@ == t,
        forall|t: Seq<char>|
            ascii_start(t) && bytes@ == seq![0xFEu8, 0xFFu8] + #[trigger] be_bytes(utf16_units(t))
                ==> s@ == t,
{
    broadcast use vstd::utf8::encode_utf8_valid_utf8, vstd::utf8::encode_utf8_decode_utf8;

    let n = bytes.len();
    let ghost b = bytes@;
    let ghost bom8 = seq![0xEFu8, 0xBBu8, 0xBFu8];
    let ghost le_mark = seq![0xFFu8, 0xFEu8];
    let ghost be_mark = seq![0xFEu8, 0xFFu8];
    if n >= 2 && bytes[0] == 0xFF && bytes[1] == 0xFE {
        assert(bytes@.take(2) =~= le_mark);
        let rest = skip_bytes(bytes, 2);
        let r = decode(TextEncoding::Utf16Le, &rest);
        proof {
            assert forall|t: Seq<char>| ascii_start(t) && b == le_mark + #[trigger] le_bytes(utf16_units(t)) implies r@ == t by {
                assert(rest@ =~= le_bytes(utf16_units(t)));
            }
            assert forall|t: Seq<char>| ascii_start(t) && b == #[trigger] encode_utf8(t) implies r@ == t by {
                lemma_first_bytes(t);
            }
            assert forall|t: Seq<char>| ascii_start(t) && b == bom8 + #[trigger] encode_utf8(t) implies r@ == t by {
                assert((bom8 + encode_utf8(t))[0] == 0xEFu8);
            }
            assert forall|t: Seq<char>| ascii_start(t) && b == be_mark + #[trigger] be_bytes(utf16_units(t)) implies r@ == t by {
                assert((be_mark + be_bytes(utf16_units(t)))[0] == 0xFEu8);
            }
        }
        return r;
    }
    assert(!starts_with_bytes(bytes@, le_mark));
    if n >= 2 && bytes[0] == 0xFE && bytes[1] == 0xFF {
        assert(bytes@.take(2) =~= be_mark);
        let rest = skip_bytes(bytes, 2);
        let r = decode(TextEncoding::Utf16Be, &rest);
        proof {
            assert forall|t: Seq<char>| ascii_start(t) && b == be_mark + #[trigger] be_bytes(utf16_units(t)) implies r@ == t by {
                assert(rest@ =~= be_bytes(utf16_units(t)));
            }
            assert forall|t: Seq<char>| ascii_start(t) && b == #[trigger] encode_utf8(t) implies r@ == t by {
                lemma_first_bytes(t);
            }
            assert forall|t: Seq<char>| ascii_start(t) && b == bom8 + #[trigger] encode_utf8(t) implies r@ == t by {
                assert((bom8 + encode_utf8(t))[0] == 0xEFu8);
            }
            assert forall|t: Seq<char>| ascii_start(t) && b == le_mark + #[trigger] le_bytes(utf16_units(t)) implies r@ == t by {
                assert((le_mark + le_bytes(utf16_units(t)))[0] == 0xFFu8);
            }
        }
        return r;
    }
    assert(!starts_with_bytes(bytes@, be_mark));
    if n >= 3 && bytes[0] == 0xEF && bytes[1] == 0xBB && bytes[2] == 0xBF {
        assert(bytes@.take(3) =~= bom8);
        let rest = skip_bytes(bytes, 3);
        let r = decode(TextEncoding::Utf8, &rest);
        proof {
            assert forall|t: Seq<char>| ascii_start(t) && b == bom8 + #[trigger] encode_utf8(t) implies r@ == t by {
                assert(rest@ =~= encode_utf8(t));
                lemma_first_bytes(t);
                if starts_with_bytes(rest@, bom8) {
                    assert(rest@.take(3)[0] == rest@[0]);
                    assert(bom8[0] == 0xEFu8);
                }
            }
            assert forall|t: Seq<char>| ascii_start(t) && b == #[trigger] encode_utf8(t) implies r@ == t by {
                lemma_first_bytes(t);
            }
            assert forall|t: Seq<char>| ascii_start(t) && b == le_mark + #[trigger] le_bytes(utf16_units(t)) implies r@ == t by {
                assert((le_mark + le_bytes(utf16_units(t)))[0] == 0xFFu8);
            }
            assert forall|t: Seq<char>| ascii_start(t) && b == be_mark + #[trigger] be_bytes(utf16_units(t)) implies r@ == t by {
                assert((be_mark + be_bytes(utf16_units(t)))[0] == 0xFEu8);
            }
        }
        return r;
    }
    assert(!starts_with_bytes(bytes@, bom8));
    let r = match utf8_to_string(bytes) {
        Some(s) => s,
        None => decode(TextEncoding::Windows1251, bytes),
    };
    proof {
        assert forall|t: Seq<char>| ascii_start(t) && b == #[trigger] encode_utf8(t) implies r@ == t by {
            assert(valid_utf8(b));
        }
        assert forall|t: Seq<char>| ascii_start(t) && b == bom8 + #[trigger] encode_utf8(t) implies r@ == t by {
            assert(b.take(3) =~= bom8);
        }
        assert forall|t: Seq<char>| ascii_start(t) && b == le_mark + #[trigger] le_bytes(utf16_units(t)) implies r@ == t by {
            assert(b.take(2) =~= le_mark);
        }
        assert forall|t: Seq<char>| ascii_start(t) && b == be_mark + #[trigger] be_bytes(utf16_units(t)) implies r@ == t by {
            assert(b.take(2) =~= be_mark);
        }
    }
    r
}

/// The lines of a text (`str::lines`) as strings.
pub fn text_lines(text: &[char]) -> (r: Vec<String>)
    ensures
        string_seqs(r@) == lines_of(text@),
{
    let lines = split_lines(text);
    let mut r: Vec<String> = Vec::new();
    let mut i: usize = 0;
    while i < lines.len()
        invariant
            i <= lines@.len(),
            string_seqs(r@) == char_seqs(lines@).take(i as int),
        decreases lines@.len() - i,
    {
        let line = from_chars(&lines[i]);
        assert(line@ == char_seqs(lines@)[i as int]);
        let ghost before = r@;
        r.push(line);
        assert(string_seqs(r@) =~= string_seqs(before).push(line@));
        i += 1;
        assert(string_seqs(r@) =~= char_seqs(lines@).take(i as int));
    }
    assert(char_seqs(lines@).take(i as int) =~= char_seqs(lines@));
    r
}

/// UTF-8 text without a byte order mark is read as it is.
pub proof fn lemma_utf8_passthrough(bytes: Seq<u8>)
    requires
        valid_utf8(bytes),
        !starts_with_bytes(bytes, seq![0xEFu8, 0xBBu8, 0xBFu8]),
    ensures
        decoded_text(bytes) == decode_utf8(bytes),
{
    if bytes.len() >= 2 {
        assert(valid_first_scalar(bytes));
        assert(bytes[0] <= 0xf7);
        assert(!starts_with_bytes(bytes, seq![0xFFu8, 0xFEu8])) by {
            if starts_with_bytes(bytes, seq![0xFFu8, 0xFEu8]) {
                assert(bytes.take(2)[0] == bytes[0]);
            }
        }
        assert(!starts_with_bytes(bytes, seq![0xFEu8, 0xFFu8])) by {
            if starts_with_bytes(bytes, seq![0xFEu8, 0xFFu8]) {
                assert(bytes.take(2)[0] == bytes[0]);
            }
        }
    }
}

} // verus!

//! Names of files as text: what is UTF-8 as it is, and any other byte after a mark that
//! no name holds.
use crate::text::{chars_of, contains_char, utf8_text};
use vstd::prelude::*;
use vstd::utf8::{encode_scalar, encode_utf8, valid_utf8};

verus! {

/// The mark before a byte that is given as it is.
pub const MARK: char = '\0';

/// The bytes of a name: after the mark, the character of a byte is that byte, and any
/// other character is its UTF-8 encoding.
pub open spec fn raw_bytes(name: Seq<char>) -> Seq<u8>
    decreases name.len(),
{
    if name.len() == 0 {
        seq![]
    } else if name[0] == MARK && name.len() >= 2 && (name[1] as u32) < 256 {
        seq![name[1] as u32 as u8] + raw_bytes(name.skip(2))
    } else {
        encode_scalar(name[0] as u32) + raw_bytes(name.skip(1))
    }
}

/// A name without the mark stands for its own UTF-8 encoding.
pub proof fn plain_names_are_utf8(name: Seq<char>)
    requires
        !name.contains(MARK),
    ensures
        raw_bytes(name) == encode_utf8(name),
    decreases name.len(),
{
    if name.len() > 0 {
        assert(name.contains(name[0]));
        assert(name.skip(1) =~= name.drop_first());
        assert forall|c: char| name.skip(1).contains(c) implies name.contains(c) by {
            let i = name.skip(1).index_of(c);
            assert(name[i + 1] == c);
        }
        plain_names_are_utf8(name.skip(1));
    }
}

/// The byte is given as a character: it is one of ASCII, and not the mark.
spec fn is_plain(byte: u8) -> bool {
    0 < byte < 0x80
}

/// A byte in a name: as its character, or after the mark.
spec fn signs_of(byte: u8) -> Seq<char> {
    if is_plain(byte) {
        seq![byte as char]
    } else {
        seq![MARK, byte as char]
    }
}

/// Bytes in a name, each for itself.
spec fn spelled(bytes: Seq<u8>) -> Seq<char>
    decreases bytes.len(),
{
    if bytes.len() == 0 {
        seq![]
    } else {
        signs_of(bytes[0]) + spelled(bytes.skip(1))
    }
}

/// One more byte at the end.
proof fn lemma_spelled_push(bytes: Seq<u8>, byte: u8)
    ensures
        spelled(bytes.push(byte)) == spelled(bytes) + signs_of(byte),
    decreases bytes.len(),
{
    let more = bytes.push(byte);
    if bytes.len() == 0 {
        assert(more.skip(1) =~= Seq::<u8>::empty());
        assert(spelled(more.skip(1)) =~= seq![]);
        assert(spelled(more) =~= signs_of(byte));
        assert(spelled(bytes) + signs_of(byte) =~= signs_of(byte));
    } else {
        assert(more.skip(1) =~= bytes.skip(1).push(byte));
        lemma_spelled_push(bytes.skip(1), byte);
        assert(spelled(more) =~= spelled(bytes) + signs_of(byte));
    }
}

/// The encoding of a character of ASCII is its byte.
proof fn lemma_ascii(byte: u8)
    requires
        byte < 0x80,
    ensures
        encode_scalar(byte as char as u32) == seq![byte],
{
    let scalar = byte as u32;
    assert(byte as char as u32 == scalar);
    assert((scalar & 0x7F) as u8 == byte) by (bit_vector)
        requires
            scalar == byte as u32,
            byte < 0x80,
    ;
    assert(encode_scalar(scalar) =~= seq![byte]);
}

/// What is spelled reads as the bytes.
proof fn lemma_spelled(bytes: Seq<u8>)
    ensures
        raw_bytes(spelled(bytes)) == bytes,
    decreases bytes.len(),
{
    if bytes.len() > 0 {
        let name = spelled(bytes);
        let byte = bytes[0];
        lemma_spelled(bytes.skip(1));
        assert(bytes =~= seq![byte] + bytes.skip(1));
        if is_plain(byte) {
            lemma_ascii(byte);
            assert(name.skip(1) =~= spelled(bytes.skip(1)));
        } else {
            assert(name.skip(2) =~= spelled(bytes.skip(1)));
            assert(name[1] as u32 == byte as u32);
            assert(name[1] as u32 as u8 == byte);
        }
    } else {
        assert(bytes =~= seq![]);
    }
}

/// The name of bytes: their text where they are UTF-8 without the mark, else each byte
/// for itself.
pub fn name_of_bytes(bytes: &Vec<u8>) -> (name: String)
    ensures
        raw_bytes(name@) == bytes@,
        forall|text: Seq<char>|
            !text.contains(MARK) && bytes@ == #[trigger] encode_utf8(text) ==> name@ == text,
{
    let mut whole: Vec<u8> = Vec::new();
    let mut at: usize = 0;
    while at < bytes.len()
        invariant
            at <= bytes@.len(),
            whole@ == bytes@.take(at as int),
        decreases bytes@.len() - at,
    {
        whole.push(bytes[at]);
        at = at + 1;
        assert(whole@ =~= bytes@.take(at as int));
    }
    assert(whole@ =~= bytes@);
    if let Some(text) = utf8_text(whole) {
        proof {
            assert forall|other: Seq<char>|
                !other.contains(MARK) && bytes@ == #[trigger] encode_utf8(other) implies text@
                == other by {
                vstd::utf8::encode_utf8_decode_utf8(other);
                vstd::utf8::encode_utf8_decode_utf8(text@);
            }
        }
        if !contains_char(&text, MARK) {
            proof {
                plain_names_are_utf8(text@);
            }
            return text;
        }
    }
    proof {
        assert forall|other: Seq<char>| bytes@ == #[trigger] encode_utf8(other) implies valid_utf8(
            bytes@,
        ) by {
            vstd::utf8::encode_utf8_valid_utf8(other);
        }
    }
    let mut name = String::new();
    let mut at: usize = 0;
    assert(name@ =~= spelled(bytes@.take(0)));
    while at < bytes.len()
        invariant
            at <= bytes@.len(),
            name@ == spelled(bytes@.take(at as int)),
        decreases bytes@.len() - at,
    {
        proof {
            lemma_spelled_push(bytes@.take(at as int), bytes@[at as int]);
            assert(bytes@.take(at + 1) =~= bytes@.take(at as int).push(bytes@[at as int]));
        }
        let ghost before = name@;
        let byte = bytes[at];
        if byte == 0 || byte >= 0x80 {
            name.push(MARK);
        }
        name.push(byte as char);
        assert(name@ =~= before + signs_of(byte));
        at = at + 1;
    }
    proof {
        assert(bytes@.take(at as int) =~= bytes@);
        lemma_spelled(bytes@);
    }
    name
}

/// Whether a name holds bytes that are given as they are.
pub fn is_raw(name: &str) -> (raw: bool)
    ensures
        raw == name@.contains(MARK),
{
    contains_char(name, MARK)
}

/// The bytes of a name.
pub fn bytes_of_name(name: &str) -> (bytes: Vec<u8>)
    ensures
        bytes@ == raw_bytes(name@),
{
    let chars = chars_of(name);
    let mut bytes: Vec<u8> = Vec::new();
    let mut at: usize = 0;
    assert(name@.skip(0) =~= name@);
    assert(bytes@ + raw_bytes(name@) =~= raw_bytes(name@));
    while at < chars.len()
        invariant
            at <= chars@.len(),
            chars@ == name@,
            bytes@ + raw_bytes(name@.skip(at as int)) == raw_bytes(name@),
        decreases chars@.len() - at,
    {
        let ghost rest = name@.skip(at as int);
        let ghost before = bytes@;
        assert(rest[0] == chars@[at as int]);
        let c = chars[at];
        if c == MARK && chars.len() - at >= 2 && (chars[at + 1] as u32) < 256 {
            let byte = chars[at + 1] as u32 as u8;
            assert(rest[1] == chars@[at + 1]);
            assert(rest[1] as u32 as u8 == byte);
            assert(raw_bytes(rest) == seq![byte] + raw_bytes(rest.skip(2)));
            assert(rest.skip(2) =~= name@.skip(at + 2));
            bytes.push(byte);
            assert(before + (seq![byte] + raw_bytes(name@.skip(at + 2))) =~= before.push(byte)
                + raw_bytes(name@.skip(at + 2)));
            at = at + 2;
        } else {
            assert(rest.skip(1) =~= name@.skip(at + 1));
            assert(raw_bytes(rest) == encode_scalar(c as u32) + raw_bytes(rest.skip(1)));
            let mut one = String::new();
            one.push(c);
            let mut encoding = one.as_str().as_bytes_vec();
            let ghost signs = encoding@;
            proof {
                assert(one@ =~= seq![c]);
                assert(one@.drop_first() =~= Seq::<char>::empty());
                assert(encode_utf8(one@.drop_first()) =~= seq![]);
                assert(signs == encode_utf8(one@));
                assert(signs =~= encode_scalar(c as u32));
            }
            bytes.append(&mut encoding);
            assert(before + (signs + raw_bytes(name@.skip(at + 1))) =~= (before + signs)
                + raw_bytes(name@.skip(at + 1)));
            at = at + 1;
        }
    }
    assert(name@.skip(at as int) =~= Seq::<char>::empty());
    assert(bytes@ + Seq::<u8>::empty() =~= bytes@);
    bytes
}

} // verus!

//! Bytes as text: groups of three bytes as four signs.
use crate::text::chars_of;
use vstd::prelude::*;

verus! {

// ---------------------------------------------------------------------------
// Signs
// ---------------------------------------------------------------------------
/// The sign of a number below 64.
pub open spec fn sign(n: int) -> char {
    if n < 26 {
        (65 + n) as char
    } else if n < 52 {
        (97 + (n - 26)) as char
    } else if n < 62 {
        (48 + (n - 52)) as char
    } else if n == 62 {
        '+'
    } else {
        '/'
    }
}

/// The number that a sign stands for.
pub open spec fn number_of(c: char) -> Option<int> {
    if 'A' <= c <= 'Z' {
        Some(c as int - 65)
    } else if 'a' <= c <= 'z' {
        Some(c as int - 97 + 26)
    } else if '0' <= c <= '9' {
        Some(c as int - 48 + 52)
    } else if c == '+' {
        Some(62)
    } else if c == '/' {
        Some(63)
    } else {
        None
    }
}

/// Signs and numbers belong together one to one, and the filler is no sign.
proof fn lemma_signs(n: int, c: char)
    requires
        0 <= n < 64,
    ensures
        number_of(sign(n)) == Some(n),
        sign(n) != '=',
        number_of(c) matches Some(m) ==> 0 <= m < 64 && sign(m) == c,
{
}

/// The number that a sign stands for, or 64 where it is none.
fn value_of(c: char) -> (n: u8)
    ensures
        n <= 64,
        n < 64 ==> number_of(c) == Some(n as int),
        n == 64 ==> number_of(c) is None,
{
    let code = c as u32;
    if 65 <= code && code <= 90 {
        (code - 65) as u8
    } else if 97 <= code && code <= 122 {
        (code - 71) as u8
    } else if 48 <= code && code <= 57 {
        (code + 4) as u8
    } else if code == 43 {
        62
    } else if code == 47 {
        63
    } else {
        64
    }
}

// ---------------------------------------------------------------------------
// Texts
// ---------------------------------------------------------------------------
/// The four signs of one to three bytes, filled up where there are fewer than three.
pub open spec fn group(bytes: Seq<u8>) -> Seq<char> {
    let a = bytes[0] as int;
    if bytes.len() == 1 {
        seq![sign(a / 4), sign(a % 4 * 16), '=', '=']
    } else {
        let b = bytes[1] as int;
        if bytes.len() == 2 {
            seq![sign(a / 4), sign(a % 4 * 16 + b / 16), sign(b % 16 * 4), '=']
        } else {
            let c = bytes[2] as int;
            seq![sign(a / 4), sign(a % 4 * 16 + b / 16), sign(b % 16 * 4 + c / 64), sign(c % 64)]
        }
    }
}

/// Bytes as text.
pub open spec fn encoded(bytes: Seq<u8>) -> Seq<char>
    decreases bytes.len(),
{
    if bytes.len() == 0 {
        seq![]
    } else if bytes.len() <= 3 {
        group(bytes)
    } else {
        group(bytes.take(3)) + encoded(bytes.skip(3))
    }
}

/// Whole groups and what follows them are encoded apart.
proof fn lemma_encoded_apart(whole: Seq<u8>, rest: Seq<u8>)
    requires
        whole.len() % 3 == 0,
    ensures
        encoded(whole + rest) == encoded(whole) + encoded(rest),
    decreases whole.len(),
{
    if whole.len() == 0 {
        assert(whole + rest =~= rest);
        assert(encoded(whole) + encoded(rest) =~= encoded(rest));
    } else {
        let all = whole + rest;
        assert(all.take(3) =~= whole.take(3));
        assert(all.skip(3) =~= whole.skip(3) + rest);
        lemma_encoded_apart(whole.skip(3), rest);
        assert(whole.take(3).len() == 3);
        if whole.len() == 3 {
            assert(whole.take(3) =~= whole);
            assert(whole.skip(3) =~= Seq::<u8>::empty());
            assert(encoded(whole.skip(3)) =~= seq![]);
            if rest.len() == 0 {
                assert(all =~= whole);
                assert(encoded(whole) + encoded(rest) =~= encoded(whole));
            } else {
                assert(encoded(all) =~= encoded(whole) + encoded(rest));
            }
        } else {
            assert(encoded(all) =~= encoded(whole) + encoded(rest));
        }
    }
}

/// How many signs bytes take.
proof fn lemma_encoded_len(bytes: Seq<u8>)
    ensures
        encoded(bytes).len() == (bytes.len() + 2) / 3 * 4,
    decreases bytes.len(),
{
    if bytes.len() > 3 {
        lemma_encoded_len(bytes.skip(3));
    }
}

/// Four signs in a row.
spec fn four(p: char, q: char, r: char, s: char) -> Seq<char> {
    seq![p, q, r, s]
}

/// The bytes of four signs: the reading of one group.
spec fn reads_as(signs: Seq<char>, bytes: Seq<u8>) -> bool {
    1 <= bytes.len() <= 3 && group(bytes) == signs
}

/// One group has at most one reading.
proof fn lemma_group_unique(one: Seq<u8>, other: Seq<u8>)
    requires
        1 <= one.len() <= 3,
        1 <= other.len() <= 3,
        group(one) == group(other),
    ensures
        one == other,
{
    let a = one[0] as int;
    let x = other[0] as int;
    lemma_signs(a / 4, '=');
    lemma_signs(x / 4, '=');
    let g = group(one);
    let h = group(other);
    assert(g[0] == h[0] && g[1] == h[1] && g[2] == h[2] && g[3] == h[3]);
    if one.len() == 1 {
        lemma_signs(a % 4 * 16, '=');
    } else {
        let b = one[1] as int;
        lemma_signs(a % 4 * 16 + b / 16, '=');
        if one.len() == 2 {
            lemma_signs(b % 16 * 4, '=');
        } else {
            let c = one[2] as int;
            lemma_signs(b % 16 * 4 + c / 64, '=');
            lemma_signs(c % 64, '=');
        }
    }
    if other.len() == 1 {
        lemma_signs(x % 4 * 16, '=');
    } else {
        let y = other[1] as int;
        lemma_signs(x % 4 * 16 + y / 16, '=');
        if other.len() == 2 {
            lemma_signs(y % 16 * 4, '=');
        } else {
            let z = other[2] as int;
            lemma_signs(y % 16 * 4 + z / 64, '=');
            lemma_signs(z % 64, '=');
        }
    }
    assert(one.len() == other.len());
    assert(one =~= other);
}

/// Reads one group of four signs.
fn read_group(p: char, q: char, r: char, s: char) -> (bytes: Option<Vec<u8>>)
    ensures
        match bytes {
            Some(found) => reads_as(four(p, q, r, s), found@),
            None => forall|other: Seq<u8>| !(#[trigger] reads_as(four(p, q, r, s), other)),
        },
{
    let ghost signs = four(p, q, r, s);
    let w = value_of(p);
    let x = value_of(q);
    let y = value_of(r);
    let z = value_of(s);
    let mut bytes: Vec<u8> = Vec::new();
    proof {
        if w < 64 {
            lemma_signs(w as int, p);
        }
        if x < 64 {
            lemma_signs(x as int, q);
        }
        if y < 64 {
            lemma_signs(y as int, r);
        }
        if z < 64 {
            lemma_signs(z as int, s);
        }
        assert forall|other: Seq<u8>| #[trigger] reads_as(signs, other) implies readable(
            w,
            x,
            y,
            z,
            r,
            s,
        ) by {
            lemma_readable(w, x, y, z, p, q, r, s, other);
        }
    }
    if w == 64 || x == 64 {
        return None;
    }
    let first: u8 = w * 4 + x / 16;
    bytes.push(first);
    if s == '=' {
        if r == '=' {
            if x % 16 != 0 {
                return None;
            }
            assert(group(bytes@) =~= signs);
            return Some(bytes);
        }
        if y == 64 || y % 4 != 0 {
            return None;
        }
        let second: u8 = x % 16 * 16 + y / 4;
        bytes.push(second);
        assert(group(bytes@) =~= signs);
        return Some(bytes);
    }
    if y == 64 || z == 64 {
        return None;
    }
    let second: u8 = x % 16 * 16 + y / 4;
    let third: u8 = y % 4 * 64 + z;
    bytes.push(second);
    bytes.push(third);
    assert(group(bytes@) =~= signs);
    Some(bytes)
}

/// What has to hold of four signs so that they can be read.
spec fn readable(w: u8, x: u8, y: u8, z: u8, r: char, s: char) -> bool {
    &&& w < 64 && x < 64
    &&& if s == '=' {
        if r == '=' {
            x % 16 == 0
        } else {
            y < 64 && y % 4 == 0
        }
    } else {
        y < 64 && z < 64
    }
}

/// Four signs that have a reading can be read.
proof fn lemma_readable(
    w: u8,
    x: u8,
    y: u8,
    z: u8,
    p: char,
    q: char,
    r: char,
    s: char,
    bytes: Seq<u8>,
)
    requires
        w <= 64 && x <= 64 && y <= 64 && z <= 64,
        w < 64 ==> number_of(p) == Some(w as int),
        w == 64 ==> number_of(p) is None,
        x < 64 ==> number_of(q) == Some(x as int),
        x == 64 ==> number_of(q) is None,
        y < 64 ==> number_of(r) == Some(y as int),
        y == 64 ==> number_of(r) is None,
        z < 64 ==> number_of(s) == Some(z as int),
        z == 64 ==> number_of(s) is None,
        reads_as(four(p, q, r, s), bytes),
    ensures
        readable(w, x, y, z, r, s),
{
    let signs = four(p, q, r, s);
    let g = group(bytes);
    assert(g[0] == signs[0] && g[1] == signs[1] && g[2] == signs[2] && g[3] == signs[3]);
    let a = bytes[0] as int;
    lemma_signs(a / 4, '=');
    if bytes.len() == 1 {
        lemma_signs(a % 4 * 16, '=');
    } else {
        let b = bytes[1] as int;
        lemma_signs(a % 4 * 16 + b / 16, '=');
        if bytes.len() == 2 {
            lemma_signs(b % 16 * 4, '=');
        } else {
            let c = bytes[2] as int;
            lemma_signs(b % 16 * 4 + c / 64, '=');
            lemma_signs(c % 64, '=');
        }
    }
}

/// The bytes that a text stands for, or nothing where it stands for none.
pub fn decode(text: &str) -> (bytes: Option<Vec<u8>>)
    ensures
        match bytes {
            Some(found) => encoded(found@) == text@,
            None => forall|other: Seq<u8>| #[trigger] encoded(other) != text@,
        },
{
    let chars = chars_of(text);
    let mut out: Vec<u8> = Vec::new();
    let mut at: usize = 0;
    assert(encoded(out@) =~= text@.take(0));
    while chars.len() - at >= 4
        invariant
            at <= chars@.len(),
            chars@ == text@,
            at % 4 == 0,
            encoded(out@) == text@.take(at as int),
            at < chars@.len() ==> out@.len() % 3 == 0,
            forall|other: Seq<u8>| #[trigger]
                encoded(other) == text@ ==> out@.is_prefix_of(other),
        decreases chars@.len() - at,
    {
        let ghost before = out@;
        let ghost signs = four(
            chars@[at as int],
            chars@[at + 1],
            chars@[at + 2],
            chars@[at + 3],
        );
        assert(text@.subrange(at as int, at + 4) =~= signs);
        let found = read_group(chars[at], chars[at + 1], chars[at + 2], chars[at + 3]);
        proof {
            assert forall|other: Seq<u8>| #[trigger] encoded(other) == text@ implies exists|g: Seq<
                u8,
            >|
                #[trigger] reads_as(signs, g) && (before + g).is_prefix_of(other) && (g.len() < 3
                    ==> at + 4 == text@.len()) by {
                lemma_next_group(text@, before, at as int, other);
            }
        }
        match found {
            None => {
                return None;
            },
            Some(mut bytes) => {
                let ghost read = bytes@;
                let count = bytes.len();
                if count < 3 && chars.len() - at > 4 {
                    proof {
                        assert forall|other: Seq<u8>| #[trigger] encoded(other) != text@ by {
                            if encoded(other) == text@ {
                                let g = choose|g: Seq<u8>| #[trigger]
                                    reads_as(signs, g) && (before + g).is_prefix_of(other) && (
                                    g.len() < 3 ==> at + 4 == text@.len());
                                lemma_group_unique(g, read);
                            }
                        }
                    }
                    return None;
                }
                out.append(&mut bytes);
                proof {
                    assert(out@ =~= before + read);
                    lemma_encoded_apart(before, read);
                    assert(encoded(read) == signs);
                    assert(text@.take(at + 4) =~= text@.take(at as int) + signs);
                    assert forall|other: Seq<u8>| #[trigger]
                        encoded(other) == text@ implies out@.is_prefix_of(other) by {
                        let g = choose|g: Seq<u8>| #[trigger]
                            reads_as(signs, g) && (before + g).is_prefix_of(other) && (g.len() < 3
                                ==> at + 4 == text@.len());
                        lemma_group_unique(g, read);
                    }
                }
            },
        }
        at = at + 4;
    }
    if at < chars.len() {
        proof {
            assert forall|other: Seq<u8>| #[trigger] encoded(other) != text@ by {
                lemma_encoded_len(other);
            }
        }
        return None;
    }
    assert(text@.take(at as int) =~= text@);
    Some(out)
}

/// The next group of a text that stands for bytes is that of the next bytes.
proof fn lemma_next_group(text: Seq<char>, before: Seq<u8>, at: int, other: Seq<u8>)
    requires
        0 <= at,
        at + 4 <= text.len(),
        before.len() % 3 == 0,
        encoded(before) == text.take(at),
        encoded(other) == text,
        before.is_prefix_of(other),
    ensures
        exists|g: Seq<u8>| #[trigger]
            reads_as(four(text[at], text[at + 1], text[at + 2], text[at + 3]), g) && (before
                + g).is_prefix_of(other) && (g.len() < 3 ==> at + 4 == text.len()),
{
    let rest = other.skip(before.len() as int);
    assert(other =~= before + rest);
    lemma_encoded_apart(before, rest);
    assert(text.skip(at) =~= encoded(rest));
    let signs = four(text[at], text[at + 1], text[at + 2], text[at + 3]);
    assert(encoded(rest).len() >= 4);
    assert(encoded(rest).take(4) =~= signs) by {
        assert forall|i: int| 0 <= i < 4 implies encoded(rest)[i] == text[at + i] by {
            assert(text.skip(at)[i] == text[at + i]);
        }
    }
    let g = if rest.len() <= 3 {
        rest
    } else {
        rest.take(3)
    };
    assert(group(g) =~= signs) by {
        assert(encoded(rest).take(4) =~= group(g));
    }
    assert(reads_as(signs, g));
    assert((before + g).is_prefix_of(other)) by {
        assert(other.take((before + g).len() as int) =~= before + g);
    }
}

/// No two rows of bytes have the same text.
pub proof fn encoding_loses_nothing(one: Seq<u8>, other: Seq<u8>)
    requires
        encoded(one) == encoded(other),
    ensures
        one == other,
    decreases one.len(),
{
    lemma_encoded_len(one);
    lemma_encoded_len(other);
    if one.len() > 0 && other.len() > 0 {
        let g = if one.len() <= 3 {
            one
        } else {
            one.take(3)
        };
        let h = if other.len() <= 3 {
            other
        } else {
            other.take(3)
        };
        assert(encoded(one).take(4) =~= group(g));
        assert(encoded(other).take(4) =~= group(h));
        lemma_group_unique(g, h);
        let rest = one.skip(g.len() as int);
        let tail = other.skip(h.len() as int);
        assert(one =~= g + rest);
        assert(other =~= h + tail);
        if one.len() > 3 {
            assert(encoded(one).skip(4) =~= encoded(rest));
        } else {
            assert(encoded(one).skip(4) =~= encoded(rest));
        }
        assert(encoded(other).skip(4) =~= encoded(tail));
        encoding_loses_nothing(rest, tail);
    }
}

/// The signs are those of the alphabet, in its order.
pub proof fn signs_are_the_alphabet(n: int)
    requires
        0 <= n < 64,
    ensures
        sign(n) == "ABCDEFGHIJKLMNOPQRSTUVWXYZabcdefghijklmnopqrstuvwxyz0123456789+/"@[n],
{
    reveal_strlit("ABCDEFGHIJKLMNOPQRSTUVWXYZabcdefghijklmnopqrstuvwxyz0123456789+/");
}

/// Three bytes are four signs whose numbers, put together in sixty-fours, are the number that
/// the bytes are in two hundred and fifty-sixes; what is missing of them is filled up.
pub proof fn groups_are_the_number_of_their_bytes(bytes: Seq<u8>)
    requires
        1 <= bytes.len() <= 3,
    ensures
        group(bytes).len() == 4,
        bytes.len() == 3 ==> exists|p: int, q: int, r: int, s: int|
            0 <= p < 64 && 0 <= q < 64 && 0 <= r < 64 && 0 <= s < 64 && group(bytes) == seq![
                #[trigger] sign(p),
                #[trigger] sign(q),
                #[trigger] sign(r),
                #[trigger] sign(s),
            ] && ((p * 64 + q) * 64 + r) * 64 + s == (bytes[0] * 256 + bytes[1]) * 256 + bytes[2],
        bytes.len() == 2 ==> group(bytes)[3] == '=',
        bytes.len() == 1 ==> group(bytes)[2] == '=' && group(bytes)[3] == '=',
{
    if bytes.len() == 3 {
        let a = bytes[0] as int;
        let b = bytes[1] as int;
        let c = bytes[2] as int;
        let p = a / 4;
        let q = a % 4 * 16 + b / 16;
        let r = b % 16 * 4 + c / 64;
        let s = c % 64;
        assert(group(bytes) == seq![sign(p), sign(q), sign(r), sign(s)]);
        assert(((p * 64 + q) * 64 + r) * 64 + s == (a * 256 + b) * 256 + c);
    }
}

} // verus!

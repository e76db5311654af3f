//! The transport encoding: bytes as text over the 64-symbol alphabet
//! `A-Z a-z 0-9 + /`, padded with `=` to groups of four.
//!
//! The encoder pads the last group. The decoder takes `=` as the end of
//! the last group and refuses it anywhere before; the length of the text
//! must be a multiple of four. At least two symbols stand before `=`, and
//! every symbol before it belongs to the alphabet.

use vstd::prelude::*;
use vstd::string::StringSliceAdditionalSpecFns;
use vstd::utf8::{encode_utf8, is_ascii_chars, is_ascii_chars_encode_utf8};

verus! {

/// The padding symbol `=`.
pub const PAD: u8 = 61;

/// The symbol of the alphabet that stands for a six-bit value.
pub open spec fn symbol(v: u8) -> u8 {
    if v < 26 {
        (65 + v) as u8
    } else if v < 52 {
        (71 + v) as u8
    } else if v < 62 {
        (v - 4) as u8
    } else if v == 62 {
        43
    } else {
        47
    }
}

/// Whether a byte is a symbol of the alphabet.
pub open spec fn in_alphabet(b: u8) -> bool {
    65 <= b <= 90 || 97 <= b <= 122 || 48 <= b <= 57 || b == 43 || b == 47
}

/// The six-bit value of a symbol of the alphabet.
pub open spec fn sextet(b: u8) -> u8 {
    if 65 <= b <= 90 {
        (b - 65) as u8
    } else if 97 <= b <= 122 {
        (b - 71) as u8
    } else if 48 <= b <= 57 {
        (b + 4) as u8
    } else if b == 43 {
        62
    } else if b == 47 {
        63
    } else {
        0
    }
}

pub open spec fn first_value(b0: u8) -> u8 {
    (b0 >> 2) & 0x3F
}

pub open spec fn second_value(b0: u8, b1: u8) -> u8 {
    ((b0 & 0x03) << 4) | ((b1 >> 4) & 0x0F)
}

pub open spec fn third_value(b1: u8, b2: u8) -> u8 {
    ((b1 & 0x0F) << 2) | ((b2 >> 6) & 0x03)
}

pub open spec fn fourth_value(b2: u8) -> u8 {
    b2 & 0x3F
}

/// The symbols for a sequence of bytes: four for each three bytes, the
/// last group padded.
pub open spec fn encode_bytes(data: Seq<u8>) -> Seq<u8>
    decreases data.len(),
{
    if data.len() == 0 {
        Seq::empty()
    } else if data.len() == 1 {
        seq![symbol(first_value(data[0])), symbol(second_value(data[0], 0)), PAD, PAD]
    } else if data.len() == 2 {
        seq![
            symbol(first_value(data[0])),
            symbol(second_value(data[0], data[1])),
            symbol(third_value(data[1], 0)),
            PAD,
        ]
    } else {
        seq![
            symbol(first_value(data[0])),
            symbol(second_value(data[0], data[1])),
            symbol(third_value(data[1], data[2])),
            symbol(fourth_value(data[2])),
        ] + encode_bytes(data.skip(3))
    }
}

/// The text for a sequence of bytes.
pub open spec fn encode_spec(data: Seq<u8>) -> Seq<char> {
    encode_bytes(data).map_values(|b: u8| b as char)
}

/// Where the first `=` of a group of four stands; 4 where it has none.
pub open spec fn pad_at(g: Seq<u8>) -> int {
    if g[0] == PAD {
        0
    } else if g[1] == PAD {
        1
    } else if g[2] == PAD {
        2
    } else if g[3] == PAD {
        3
    } else {
        4
    }
}

/// The value of the symbol at `i` of a group; 0 from the first `=` on.
pub open spec fn value_at(g: Seq<u8>, i: int) -> u8 {
    if i < pad_at(g) {
        sextet(g[i])
    } else {
        0
    }
}

/// The bytes of one group of four symbols: three, or fewer where `=` ends it.
pub open spec fn decode_group(g: Seq<u8>) -> Seq<u8> {
    let b0 = (value_at(g, 0) << 2) | (value_at(g, 1) >> 4);
    let b1 = (value_at(g, 1) << 4) | (value_at(g, 2) >> 2);
    let b2 = (value_at(g, 2) << 6) | value_at(g, 3);
    if pad_at(g) > 3 {
        seq![b0, b1, b2]
    } else if pad_at(g) > 2 {
        seq![b0, b1]
    } else {
        seq![b0]
    }
}

/// Whether every symbol of a group before its first `=` belongs to the alphabet.
pub open spec fn symbols_fit(g: Seq<u8>) -> bool {
    &&& pad_at(g) > 0 ==> in_alphabet(g[0])
    &&& pad_at(g) > 1 ==> in_alphabet(g[1])
    &&& pad_at(g) > 2 ==> in_alphabet(g[2])
    &&& pad_at(g) > 3 ==> in_alphabet(g[3])
}

/// What decoding comes to: the bytes, or what is wrong with the text.
pub ghost enum Outcome {
    Bytes(Seq<u8>),
    /// The length of the text is no multiple of four.
    BadLength,
    /// `=` stands before the last group, or after fewer than two symbols of it.
    BadPadding,
    /// A symbol before `=` is outside the alphabet.
    BadSymbol,
}

/// What decoding a sequence of whole groups comes to, the first flaw
/// counting.
pub open spec fn decode_groups(text: Seq<u8>) -> Outcome
    decreases text.len(),
{
    if text.len() < 4 {
        Outcome::Bytes(Seq::empty())
    } else if pad_at(text.take(4)) < 2 || (text.len() > 4 && pad_at(text.take(4)) < 4) {
        Outcome::BadPadding
    } else if !symbols_fit(text.take(4)) {
        Outcome::BadSymbol
    } else {
        match decode_groups(text.skip(4)) {
            Outcome::Bytes(rest) => Outcome::Bytes(decode_group(text.take(4)) + rest),
            other => other,
        }
    }
}

/// What decoding a sequence of symbols comes to.
pub open spec fn decode_outcome(text: Seq<u8>) -> Outcome {
    if text.len() % 4 != 0 {
        Outcome::BadLength
    } else {
        decode_groups(text)
    }
}

/// The bytes that a sequence of symbols stands for; `None` where
/// something is wrong with it.
pub open spec fn decode_bytes(text: Seq<u8>) -> Option<Seq<u8>> {
    match decode_outcome(text) {
        Outcome::Bytes(bytes) => Some(bytes),
        _ => None,
    }
}

/// The bytes that a text stands for, the text taken by its UTF-8 bytes.
pub open spec fn decode_spec(text: Seq<char>) -> Option<Seq<u8>> {
    decode_bytes(encode_utf8(text))
}

/// `String::push`: the character goes to the end.
#[verifier::external_body]
pub(crate) fn push_char(s: &mut String, c: char)
    ensures
        final(s)@ == old(s)@.push(c),
{
    s.push(c)
}

fn symbol_of(v: u8) -> (r: u8)
    requires
        v < 64,
    ensures
        r == symbol(v),
        r < 128,
{
    if v < 26 {
        65 + v
    } else if v < 52 {
        71 + v
    } else if v < 62 {
        v - 4
    } else if v == 62 {
        43
    } else {
        47
    }
}

fn is_symbol(b: u8) -> (r: bool)
    ensures
        r == in_alphabet(b),
{
    (65 <= b && b <= 90) || (97 <= b && b <= 122) || (48 <= b && b <= 57) || b == 43 || b == 47
}

fn sextet_of(b: u8) -> (r: u8)
    ensures
        r == sextet(b),
        r < 64,
{
    if 65 <= b && b <= 90 {
        b - 65
    } else if 97 <= b && b <= 122 {
        b - 71
    } else if 48 <= b && b <= 57 {
        b + 4
    } else if b == 43 {
        62
    } else if b == 47 {
        63
    } else {
        0
    }
}

proof fn lemma_values_small(b0: u8, b1: u8, b2: u8)
    ensures
        first_value(b0) < 64,
        second_value(b0, b1) < 64,
        third_value(b1, b2) < 64,
        fourth_value(b2) < 64,
{
    assert((b0 >> 2) & 0x3F < 64) by (bit_vector);
    assert(((b0 & 0x03) << 4) | ((b1 >> 4) & 0x0F) < 64) by (bit_vector);
    assert(((b1 & 0x0F) << 2) | ((b2 >> 6) & 0x03) < 64) by (bit_vector);
    assert(b2 & 0x3F < 64) by (bit_vector);
}

/// Encodes bytes as text.
pub fn base64_encode(data: &[u8]) -> (r: String)
    ensures
        r@ == encode_spec(data@),
{
    let mut result = String::new();
    let n = data.len();
    let mut i: usize = 0;
    proof {
        assert(data@.take(0) =~= Seq::empty());
        assert(encode_spec(Seq::empty()) =~= Seq::empty());
    }
    while i < n
        invariant
            0 <= i <= n,
            i % 3 == 0,
            n == data.len(),
            result@ == encode_spec(data@.take(i as int)),
        decreases n - i,
    {
        let b0 = data[i];
        let b1 = if i + 1 < n {
            data[i + 1]
        } else {
            0
        };
        let b2 = if i + 2 < n {
            data[i + 2]
        } else {
            0
        };
        proof {
            lemma_values_small(b0, b1, b2);
        }
        let c0 = symbol_of((b0 >> 2) & 0x3F);
        let c1 = symbol_of(((b0 & 0x03) << 4) | ((b1 >> 4) & 0x0F));
        let c2 = if i + 1 < n {
            symbol_of(((b1 & 0x0F) << 2) | ((b2 >> 6) & 0x03))
        } else {
            PAD
        };
        let c3 = if i + 2 < n {
            symbol_of(b2 & 0x3F)
        } else {
            PAD
        };
        let ghost before = result@;
        push_char(&mut result, c0 as char);
        push_char(&mut result, c1 as char);
        push_char(&mut result, c2 as char);
        push_char(&mut result, c3 as char);
        let next = if n - i < 3 {
            n
        } else {
            i + 3
        };
        proof {
            let head = data@.take(i as int);
            let tail = data@.subrange(i as int, next as int);
            assert(data@.take(next as int) =~= head + tail);
            lemma_encode_append(head, tail);
            assert(encode_bytes(tail) =~= seq![c0, c1, c2, c3]) by {
                assert(tail[0] == b0);
                if tail.len() >= 2 {
                    assert(tail[1] == b1);
                }
                if tail.len() >= 3 {
                    assert(tail[2] == b2);
                    assert(tail.skip(3) =~= Seq::empty());
                    assert(encode_bytes(tail.skip(3)) =~= Seq::empty());
                }
            }
            assert(result@ =~= before + seq![c0 as char, c1 as char, c2 as char, c3 as char]);
            assert(seq![c0, c1, c2, c3].map_values(|b: u8| b as char) =~= seq![
                c0 as char,
                c1 as char,
                c2 as char,
                c3 as char,
            ]);
            assert(encode_spec(data@.take(next as int)) =~= encode_spec(head) + encode_bytes(tail).map_values(
                |b: u8| b as char,
            ));
        }
        if n - i < 3 {
            proof {
                assert(data@.take(n as int) =~= data@);
            }
            return result;
        }
        i = i + 3;
    }
    proof {
        assert(data@.take(n as int) =~= data@);
    }
    result
}

/// Encoding whole groups of three bytes and then a rest is encoding all of it.
pub proof fn lemma_encode_append(head: Seq<u8>, tail: Seq<u8>)
    requires
        head.len() % 3 == 0,
    ensures
        encode_bytes(head + tail) == encode_bytes(head) + encode_bytes(tail),
    decreases head.len(),
{
    if head.len() == 0 {
        assert(head + tail =~= tail);
        assert(encode_bytes(head) + encode_bytes(tail) =~= encode_bytes(tail));
    } else {
        let all = head + tail;
        assert(all.skip(3) =~= head.skip(3) + tail);
        lemma_encode_append(head.skip(3), tail);
        assert(all[0] == head[0] && all[1] == head[1] && all[2] == head[2]);
        assert(encode_bytes(all) =~= encode_bytes(head) + encode_bytes(tail));
    }
}

/// Decodes text to bytes. Fails, with a message that says why, where
/// the length of the text is no multiple of four, where `=` stands before
/// the last group of four or after fewer than two symbols of it, and
/// where a symbol before `=` is outside the alphabet.
pub fn base64_decode(data: &str) -> (r: Result<Vec<u8>, String>)
    ensures
        match decode_spec(data@) {
            Some(bytes) => r is Ok && r->Ok_0@ == bytes,
            None => r is Err,
        },
        match decode_outcome(encode_utf8(data@)) {
            Outcome::Bytes(bytes) => r is Ok,
            Outcome::BadLength => r is Err && r->Err_0@ == "Invalid base64 length"@,
            Outcome::BadPadding => r is Err && r->Err_0@ == "Invalid base64 padding"@,
            Outcome::BadSymbol => r is Err && r->Err_0@ == "Invalid base64 character"@,
        },
{
    let chars = data.as_bytes();
    let n = chars.len();
    if n % 4 != 0 {
        return Err("Invalid base64 length".to_owned());
    }
    let mut result: Vec<u8> = Vec::new();
    let mut i: usize = 0;
    proof {
        assert(chars@.skip(0) =~= chars@);
    }
    while i < n
        invariant
            0 <= i <= n,
            n == chars.len(),
            n % 4 == 0,
            i % 4 == 0,
            chars@ == encode_utf8(data@),
            decode_groups(chars@) == match decode_groups(chars@.skip(i as int)) {
                Outcome::Bytes(rest) => Outcome::Bytes(result@ + rest),
                other => other,
            },
        decreases n - i,
    {
        let ghost rest = chars@.skip(i as int);
        let ghost g = rest.take(4);
        proof {
            assert(g[0] == chars[i as int]);
            assert(g[1] == chars[i + 1]);
            assert(g[2] == chars[i + 2]);
            assert(g[3] == chars[i + 3]);
            assert(rest.skip(4) =~= chars@.skip(i + 4));
        }
        let p: usize = if chars[i] == PAD {
            0
        } else if chars[i + 1] == PAD {
            1
        } else if chars[i + 2] == PAD {
            2
        } else if chars[i + 3] == PAD {
            3
        } else {
            4
        };
        if p < 2 || (p < 4 && n - i > 4) {
            return Err("Invalid base64 padding".to_owned());
        }
        if !is_symbol(chars[i]) || !is_symbol(chars[i + 1]) || (p > 2 && !is_symbol(chars[i + 2])) || (p > 3
            && !is_symbol(chars[i + 3])) {
            return Err("Invalid base64 character".to_owned());
        }
        let v0 = sextet_of(chars[i]);
        let v1 = sextet_of(chars[i + 1]);
        let v2 = if p > 2 {
            sextet_of(chars[i + 2])
        } else {
            0
        };
        let v3 = if p > 3 {
            sextet_of(chars[i + 3])
        } else {
            0
        };
        let ghost before = result@;
        result.push((v0 << 2) | (v1 >> 4));
        if p > 2 {
            result.push((v1 << 4) | (v2 >> 2));
        }
        if p > 3 {
            result.push((v2 << 6) | v3);
        }
        proof {
            assert(result@ =~= before + decode_group(g));
            match decode_groups(rest.skip(4)) {
                Outcome::Bytes(more) => {
                    assert(before + (decode_group(g) + more) =~= result@ + more);
                },
                _ => {},
            }
        }
        i = i + 4;
    }
    proof {
        assert(chars@.skip(n as int) =~= Seq::empty());
        assert(result@ + Seq::empty() =~= result@);
    }
    Ok(result)
}

proof fn lemma_symbol(v: u8)
    requires
        v < 64,
    ensures
        sextet(symbol(v)) == v,
        symbol(v) != PAD,
        symbol(v) < 128,
        in_alphabet(symbol(v)),
{
}

proof fn lemma_group_bits(b0: u8, b1: u8, b2: u8)
    ensures
        (first_value(b0) << 2) | (second_value(b0, b1) >> 4) == b0,
        (second_value(b0, b1) << 4) | (third_value(b1, b2) >> 2) == b1,
        (third_value(b1, b2) << 6) | fourth_value(b2) == b2,
{
    assert((((b0 >> 2) & 0x3F) << 2) | ((((b0 & 0x03) << 4) | ((b1 >> 4) & 0x0F)) >> 4) == b0) by (bit_vector);
    assert(((((b0 & 0x03) << 4) | ((b1 >> 4) & 0x0F)) << 4) | ((((b1 & 0x0F) << 2) | ((b2 >> 6) & 0x03)) >> 2)
        == b1) by (bit_vector);
    assert(((((b1 & 0x0F) << 2) | ((b2 >> 6) & 0x03)) << 6) | (b2 & 0x3F) == b2) by (bit_vector);
}

/// Every symbol of an encoding is ASCII.
pub proof fn lemma_encode_ascii(data: Seq<u8>)
    ensures
        forall|i: int| 0 <= i < encode_bytes(data).len() ==> #[trigger] encode_bytes(data)[i] < 128,
    decreases data.len(),
{
    if data.len() > 0 {
        let b0 = data[0];
        let b1 = if data.len() > 1 {
            data[1]
        } else {
            0
        };
        let b2 = if data.len() > 2 {
            data[2]
        } else {
            0
        };
        lemma_values_small(b0, b1, b2);
        lemma_symbol(first_value(b0));
        lemma_symbol(second_value(b0, b1));
        lemma_symbol(third_value(b1, b2));
        lemma_symbol(fourth_value(b2));
        if data.len() > 2 {
            lemma_encode_ascii(data.skip(3));
        }
        let text = encode_bytes(data);
        assert forall|i: int| 0 <= i < text.len() implies #[trigger] text[i] < 128 by {
            if i >= 4 {
                assert(text[i] == encode_bytes(data.skip(3))[i - 4]);
            }
        }
    }
}

/// What the encoder writes, the decoder reads back, as sequences of
/// symbols; and the encoder writes whole groups.
pub proof fn lemma_decode_encode_bytes(data: Seq<u8>)
    ensures
        encode_bytes(data).len() % 4 == 0,
        decode_groups(encode_bytes(data)) == Outcome::Bytes(data),
        decode_bytes(encode_bytes(data)) == Some(data),
    decreases data.len(),
{
    if data.len() > 0 {
        let b0 = data[0];
        let b1 = if data.len() > 1 {
            data[1]
        } else {
            0
        };
        let b2 = if data.len() > 2 {
            data[2]
        } else {
            0
        };
        lemma_values_small(b0, b1, b2);
        lemma_symbol(first_value(b0));
        lemma_symbol(second_value(b0, b1));
        lemma_symbol(third_value(b1, b2));
        lemma_symbol(fourth_value(b2));
        lemma_group_bits(b0, b1, b2);
        assert(0u8 >> 4 == 0u8) by (bit_vector);
        assert(0u8 >> 2 == 0u8) by (bit_vector);
        assert(forall|x: u8| x | 0 == x) by (bit_vector);
        let text = encode_bytes(data);
        let g = text.take(4);
        if data.len() == 1 {
            assert(text.len() == 4);
            assert(text.skip(4) =~= Seq::empty());
            assert(pad_at(g) == 2);
            assert(symbols_fit(g));
            assert(decode_group(g) =~= data);
            assert(decode_group(g) + Seq::<u8>::empty() =~= data);
        } else if data.len() == 2 {
            assert(text.len() == 4);
            assert(text.skip(4) =~= Seq::empty());
            assert(pad_at(g) == 3);
            assert(symbols_fit(g));
            assert(decode_group(g) =~= data);
            assert(decode_group(g) + Seq::<u8>::empty() =~= data);
        } else {
            let rest = data.skip(3);
            assert(text.skip(4) =~= encode_bytes(rest));
            lemma_decode_encode_bytes(rest);
            assert(text.len() == 4 + encode_bytes(rest).len());
            assert(pad_at(g) == 4);
            assert(symbols_fit(g));
            assert(decode_group(g) =~= data.take(3));
            assert(data.take(3) + rest =~= data);
        }
        if data.len() < 3 {
            assert(decode_groups(text.skip(4)) == Outcome::Bytes(Seq::<u8>::empty()));
        }
        assert(text.len() >= 4);
        assert(decode_groups(text) == Outcome::Bytes(data));
    } else {
        assert(data =~= Seq::empty());
        assert(encode_bytes(data) =~= Seq::empty());
    }
}

/// What the encoder writes, the decoder reads back.
pub proof fn lemma_base64_round_trip(data: Seq<u8>)
    ensures
        decode_spec(encode_spec(data)) == Some(data),
{
    let text = encode_spec(data);
    lemma_encode_ascii(data);
    assert(is_ascii_chars(text)) by {
        assert forall|i: int| 0 <= i < text.len() implies '\0' <= #[trigger] text[i] <= '\u{7f}' by {
            assert(encode_bytes(data)[i] < 128);
        }
    }
    is_ascii_chars_encode_utf8(text);
    assert(encode_utf8(text) =~= encode_bytes(data)) by {
        assert forall|i: int| 0 <= i < text.len() implies encode_utf8(text)[i] == encode_bytes(data)[i] by {
            assert(text[i] as u8 == encode_utf8(text)[i]);
            assert(encode_bytes(data)[i] < 128);
        }
    }
    lemma_decode_encode_bytes(data);
}

} // verus!

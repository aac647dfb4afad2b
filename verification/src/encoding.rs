//! Percent-encoding, percent-decoding and UTF-8 byte conversions.
use vstd::prelude::*;
use vstd::utf8::{encode_utf8, encode_scalar, valid_utf8, decode_utf8, char_is_scalar};
use crate::text::{chars_of, string_from_chars, slice_vec};

verus! {

// ---------------------------------------------------------------------------
// UTF-8
// ---------------------------------------------------------------------------

/// The UTF-8 encoding of one character.
pub fn encode_char(c: char) -> (r: Vec<u8>)
    ensures
        r@ == encode_utf8(seq![c]),
{
    let u = c as u32;
    proof {
        char_is_scalar(c);
        assert(encode_utf8(seq![c]) =~= encode_scalar(u) + encode_utf8(seq![c].drop_first()));
        assert(encode_utf8(seq![c].drop_first()) =~= Seq::<u8>::empty());
    }
    if u < 0x80 {
        let r = vec![(u & 0x7F) as u8];
        assert(r@ =~= encode_utf8(seq![c]));
        r
    } else if u < 0x800 {
        let r = vec![0xC0u8 | ((u >> 6) & 0x1F) as u8, 0x80u8 | (u & 0x3F) as u8];
        assert(r@ =~= encode_utf8(seq![c]));
        r
    } else if u < 0x10000 {
        let r = vec![
            0xE0u8 | ((u >> 12) & 0x0F) as u8,
            0x80u8 | ((u >> 6) & 0x3F) as u8,
            0x80u8 | (u & 0x3F) as u8,
        ];
        assert(r@ =~= encode_utf8(seq![c]));
        r
    } else {
        let r = vec![
            0xF0u8 | ((u >> 18) & 0x7) as u8,
            0x80u8 | ((u >> 12) & 0x3F) as u8,
            0x80u8 | ((u >> 6) & 0x3F) as u8,
            0x80u8 | (u & 0x3F) as u8,
        ];
        assert(r@ =~= encode_utf8(seq![c]));
        r
    }
}

pub proof fn lemma_encode_utf8_concat(a: Seq<char>, b: Seq<char>)
    ensures
        encode_utf8(a + b) == encode_utf8(a) + encode_utf8(b),
    decreases a.len(),
{
    if a.len() == 0 {
        assert(a + b =~= b);
    } else {
        lemma_encode_utf8_concat(a.drop_first(), b);
        assert((a + b).drop_first() =~= a.drop_first() + b);
    }
}

/// The UTF-8 bytes of characters.
pub fn encode_chars(v: &Vec<char>) -> (r: Vec<u8>)
    ensures
        r@ == encode_utf8(v@),
{
    let mut out: Vec<u8> = Vec::new();
    let mut i: usize = 0;
    while i < v.len()
        invariant
            i <= v.len(),
            out@ == encode_utf8(v@.take(i as int)),
        decreases v.len() - i,
    {
        let b = encode_char(v[i]);
        let mut j: usize = 0;
        let ghost before = out@;
        while j < b.len()
            invariant
                j <= b.len(),
                out@ == before + b@.take(j as int),
            decreases b.len() - j,
        {
            out.push(b[j]);
            j += 1;
            assert(out@ =~= before + b@.take(j as int));
        }
        proof {
            assert(b@.take(b.len() as int) =~= b@);
            assert(v@.take(i + 1) =~= v@.take(i as int) + seq![v@[i as int]]);
            lemma_encode_utf8_concat(v@.take(i as int), seq![v@[i as int]]);
        }
        i += 1;
    }
    assert(v@.take(v.len() as int) =~= v@);
    out
}

/// A name for what `String::from_utf8_lossy` makes of a byte sequence.
pub uninterp spec fn utf8_lossy(bytes: Seq<u8>) -> Seq<char>;

/// `String::from_utf8_lossy(..).into_owned()`: its result is named `utf8_lossy`; std
/// documents that valid UTF-8 is decoded unchanged. How invalid sequences are replaced
/// by U+FFFD is left to the name.
#[verifier::external_body]
pub(crate) fn string_from_utf8_lossy(bytes: &[u8]) -> (r: String)
    ensures
        r@ == utf8_lossy(bytes@),
        valid_utf8(bytes@) ==> r@ == decode_utf8(bytes@),
{
    String::from_utf8_lossy(bytes).into_owned()
}

// ---------------------------------------------------------------------------
// Percent-encoding
// ---------------------------------------------------------------------------

/// Bytes that stay unencoded: ASCII letters, digits and `-` `_` `.` `~`.
pub open spec fn is_unreserved(b: u8) -> bool {
    (0x41 <= b && b <= 0x5A) || (0x61 <= b && b <= 0x7A) || (0x30 <= b && b <= 0x39) || b == 0x2D
        || b == 0x5F || b == 0x2E || b == 0x7E
}

/// The upper-case hexadecimal digit for `n < 16`.
pub open spec fn hex_upper(n: nat) -> char {
    if n < 10 {
        ((n + 48) as u32) as char
    } else {
        ((n + 55) as u32) as char
    }
}

/// The lower-case hexadecimal digit for `n < 16`.
pub open spec fn hex_lower(n: nat) -> char {
    if n < 10 {
        ((n + 48) as u32) as char
    } else {
        ((n + 87) as u32) as char
    }
}

/// `%` followed by two upper-case hexadecimal digits.
pub open spec fn percent_escape(b: u8) -> Seq<char> {
    seq!['%', hex_upper((b / 16) as nat), hex_upper((b % 16) as nat)]
}

/// Percent-encoding of bytes: unreserved bytes stay, every other byte becomes `%XX`.
pub open spec fn percent_encode(bs: Seq<u8>) -> Seq<char>
    decreases bs.len(),
{
    if bs.len() == 0 {
        Seq::empty()
    } else {
        percent_encode(bs.drop_last()) + if is_unreserved(bs.last()) {
            seq![(bs.last() as u32) as char]
        } else {
            percent_escape(bs.last())
        }
    }
}

pub fn hex_digit_upper(n: u8) -> (c: char)
    requires
        n < 16,
    ensures
        c == hex_upper(n as nat),
{
    if n < 10 {
        let c = (n + 48) as char;
        c
    } else {
        let c = (n + 55) as char;
        c
    }
}

pub fn hex_digit_lower(n: u8) -> (c: char)
    requires
        n < 16,
    ensures
        c == hex_lower(n as nat),
{
    if n < 10 {
        let c = (n + 48) as char;
        c
    } else {
        let c = (n + 87) as char;
        c
    }
}

/// Percent-encodes the UTF-8 bytes of `s` (every byte but ASCII letters, digits and
/// `-` `_` `.` `~` becomes `%XX`, upper-case).
pub fn url_encode(s: &str) -> (r: String)
    ensures
        r@ == percent_encode(encode_utf8(s@)),
{
    let bytes = s.as_bytes();
    let mut out: Vec<char> = Vec::new();
    let mut i: usize = 0;
    while i < bytes.len()
        invariant
            i <= bytes@.len(),
            bytes@ == encode_utf8(s@),
            out@ == percent_encode(bytes@.take(i as int)),
        decreases bytes@.len() - i,
    {
        let b = bytes[i];
        proof {
            assert(bytes@.take(i + 1).drop_last() =~= bytes@.take(i as int));
        }
        if (0x41 <= b && b <= 0x5A) || (0x61 <= b && b <= 0x7A) || (0x30 <= b && b <= 0x39) || b
            == 0x2D || b == 0x5F || b == 0x2E || b == 0x7E {
            out.push(b as char);
        } else {
            out.push('%');
            out.push(hex_digit_upper(b / 16));
            out.push(hex_digit_upper(b % 16));
        }
        i += 1;
        assert(out@ =~= percent_encode(bytes@.take(i as int)));
    }
    assert(bytes@.take(bytes@.len() as int) =~= bytes@);
    string_from_chars(out)
}

// ---------------------------------------------------------------------------
// Percent-decoding
// ---------------------------------------------------------------------------

/// The value of a hexadecimal digit.
pub open spec fn hex_value(c: char) -> Option<u8> {
    if '0' <= c && c <= '9' {
        Some((c as u32 - 48) as u8)
    } else if 'a' <= c && c <= 'f' {
        Some((c as u32 - 87) as u8)
    } else if 'A' <= c && c <= 'F' {
        Some((c as u32 - 55) as u8)
    } else {
        None
    }
}

/// `u8::from_str_radix(h, 16)` for a text of at most two characters: an optional `+`
/// followed by one or two hexadecimal digits.
pub open spec fn parse_hex_u8(h: Seq<char>) -> Option<u8> {
    let d = if h.len() > 0 && h[0] == '+' {
        h.drop_first()
    } else {
        h
    };
    if d.len() == 1 {
        hex_value(d[0])
    } else if d.len() == 2 {
        match (hex_value(d[0]), hex_value(d[1])) {
            (Some(a), Some(b)) => Some((a * 16 + b) as u8),
            _ => None,
        }
    } else {
        None
    }
}

/// The bytes that percent-decoding produces: `%` with the next (at most) two characters
/// read as a hexadecimal byte, or kept as they are when they are not one; `+` becomes
/// a space; any other character gives its UTF-8 bytes.
pub open spec fn percent_decode(cs: Seq<char>) -> Seq<u8>
    decreases cs.len(),
{
    if cs.len() == 0 {
        Seq::empty()
    } else if cs[0] == '%' {
        let n: int = if cs.len() >= 3 {
            2
        } else {
            cs.len() - 1
        };
        let hex = cs.subrange(1, 1 + n);
        let rest = percent_decode(cs.subrange(1 + n, cs.len() as int));
        match parse_hex_u8(hex) {
            Some(b) => seq![b] + rest,
            None => seq![0x25u8] + encode_utf8(hex) + rest,
        }
    } else if cs[0] == '+' {
        seq![0x20u8] + percent_decode(cs.drop_first())
    } else {
        encode_utf8(seq![cs[0]]) + percent_decode(cs.drop_first())
    }
}

pub fn hex_value_of(c: char) -> (r: Option<u8>)
    ensures
        r == hex_value(c),
{
    if '0' <= c && c <= '9' {
        Some((c as u32 - 48) as u8)
    } else if 'a' <= c && c <= 'f' {
        Some((c as u32 - 87) as u8)
    } else if 'A' <= c && c <= 'F' {
        Some((c as u32 - 55) as u8)
    } else {
        None
    }
}

pub fn parse_hex_byte(h: &Vec<char>) -> (r: Option<u8>)
    requires
        h.len() <= 2,
    ensures
        r == parse_hex_u8(h@),
{
    let d = if h.len() > 0 && h[0] == '+' {
        slice_vec(h, 1, h.len())
    } else {
        h.clone()
    };
    proof {
        if h@.len() > 0 && h@[0] == '+' {
            assert(d@ =~= h@.drop_first());
        }
    }
    if d.len() == 1 {
        hex_value_of(d[0])
    } else if d.len() == 2 {
        match (hex_value_of(d[0]), hex_value_of(d[1])) {
            (Some(a), Some(b)) => Some(a * 16 + b),
            _ => None,
        }
    } else {
        None
    }
}

fn push_bytes(out: &mut Vec<u8>, b: &Vec<u8>)
    ensures
        final(out)@ == old(out)@ + b@,
{
    let mut j: usize = 0;
    while j < b.len()
        invariant
            j <= b.len(),
            out@ == old(out)@ + b@.take(j as int),
        decreases b.len() - j,
    {
        out.push(b[j]);
        j += 1;
        assert(out@ =~= old(out)@ + b@.take(j as int));
    }
    assert(b@.take(b.len() as int) =~= b@);
}

/// The bytes of percent-decoding `s`.
pub fn percent_decode_bytes(s: &str) -> (r: Vec<u8>)
    ensures
        r@ == percent_decode(s@),
{
    let cs = chars_of(s);
    let mut out: Vec<u8> = Vec::new();
    let mut i: usize = 0;
    assert(cs@.subrange(0, cs@.len() as int) =~= cs@);
    while i < cs.len()
        invariant
            i <= cs.len(),
            out@ + percent_decode(cs@.subrange(i as int, cs@.len() as int)) == percent_decode(cs@),
        decreases cs.len() - i,
    {
        let ghost rest = cs@.subrange(i as int, cs@.len() as int);
        let c = cs[i];
        if c == '%' {
            let n: usize = if cs.len() - i >= 3 {
                2
            } else {
                cs.len() - i - 1
            };
            let hex = slice_vec(&cs, i + 1, i + 1 + n);
            proof {
                assert(hex@ =~= rest.subrange(1, 1 + n));
                assert(rest.subrange(1 + n, rest.len() as int) =~= cs@.subrange(i + 1 + n, cs@.len() as int));
            }
            match parse_hex_byte(&hex) {
                Some(b) => {
                    out.push(b);
                    proof {
                        assert(out@ + percent_decode(cs@.subrange(i + 1 + n, cs@.len() as int)) =~= percent_decode(cs@)) by {
                            assert(percent_decode(rest) == seq![b] + percent_decode(cs@.subrange(i + 1 + n, cs@.len() as int)));
                        }
                    }
                },
                None => {
                    let ghost before = out@;
                    out.push(0x25u8);
                    let hb = encode_chars(&hex);
                    push_bytes(&mut out, &hb);
                    proof {
                        assert(percent_decode(rest) == seq![0x25u8] + encode_utf8(hex@) + percent_decode(cs@.subrange(i + 1 + n, cs@.len() as int)));
                        assert(out@ + percent_decode(cs@.subrange(i + 1 + n, cs@.len() as int)) =~= percent_decode(cs@));
                    }
                },
            }
            i = i + 1 + n;
        } else if c == '+' {
            out.push(0x20u8);
            proof {
                assert(rest.drop_first() =~= cs@.subrange(i + 1, cs@.len() as int));
                assert(out@ + percent_decode(cs@.subrange(i + 1, cs@.len() as int)) =~= percent_decode(cs@));
            }
            i = i + 1;
        } else {
            let b = encode_char(c);
            push_bytes(&mut out, &b);
            proof {
                assert(rest.drop_first() =~= cs@.subrange(i + 1, cs@.len() as int));
                assert(out@ + percent_decode(cs@.subrange(i + 1, cs@.len() as int)) =~= percent_decode(cs@));
            }
            i = i + 1;
        }
    }
    assert(percent_decode(cs@.subrange(cs@.len() as int, cs@.len() as int)) =~= Seq::<u8>::empty());
    assert(out@ =~= percent_decode(cs@));
    out
}

/// Percent-decodes `s` (`+` as a space; an escape that is not one stays as it is) and
/// reads the bytes as UTF-8, replacing invalid sequences.
pub fn url_decode(s: &str) -> (r: String)
    ensures
        r@ == utf8_lossy(percent_decode(s@)),
        r@ == lossy_text(percent_decode(s@)),
        valid_utf8(percent_decode(s@)) ==> r@ == decode_utf8(percent_decode(s@)),
{
    let bytes = percent_decode_bytes(s);
    string_from_utf8_lossy(bytes.as_slice())
}


// ---------------------------------------------------------------------------
// Decoding undoes encoding
// ---------------------------------------------------------------------------

/// The encoding of one byte.
pub open spec fn encoded_byte(b: u8) -> Seq<char> {
    if is_unreserved(b) {
        seq![(b as u32) as char]
    } else {
        percent_escape(b)
    }
}

proof fn lemma_percent_encode_concat(x: Seq<u8>, y: Seq<u8>)
    ensures
        percent_encode(x + y) == percent_encode(x) + percent_encode(y),
    decreases y.len(),
{
    if y.len() == 0 {
        assert(x + y =~= x);
    } else {
        lemma_percent_encode_concat(x, y.drop_last());
        assert((x + y).drop_last() =~= x + y.drop_last());
        assert((x + y).last() == y.last());
    }
}

proof fn lemma_percent_encode_first(bs: Seq<u8>)
    requires
        bs.len() > 0,
    ensures
        percent_encode(bs) == encoded_byte(bs[0]) + percent_encode(bs.drop_first()),
{
    lemma_percent_encode_concat(seq![bs[0]], bs.drop_first());
    assert(seq![bs[0]] + bs.drop_first() =~= bs);
    assert(seq![bs[0]].drop_last() =~= Seq::<u8>::empty());
    assert(seq![bs[0]].last() == bs[0]);
    assert(percent_encode(Seq::<u8>::empty()) =~= Seq::<char>::empty());
    assert(percent_encode(seq![bs[0]]) =~= encoded_byte(bs[0]));
}

proof fn lemma_hex_digit_value(n: nat)
    requires
        n < 16,
    ensures
        hex_value(hex_upper(n)) == Some(n as u8),
{
}

proof fn lemma_decode_encoded_byte(b: u8, rest: Seq<char>)
    ensures
        percent_decode(encoded_byte(b) + rest) == seq![b] + percent_decode(rest),
{
    let cs = encoded_byte(b) + rest;
    if is_unreserved(b) {
        let c = (b as u32) as char;
        assert(cs[0] == c);
        assert(cs.drop_first() =~= rest);
        assert(vstd::utf8::is_ascii_chars(seq![c]));
        vstd::utf8::is_ascii_chars_encode_utf8(seq![c]);
        assert(encode_utf8(seq![c]) =~= seq![b]);
    } else {
        lemma_hex_digit_value((b / 16) as nat);
        lemma_hex_digit_value((b % 16) as nat);
        assert(cs[0] == '%');
        let hex = cs.subrange(1, 3);
        assert(hex =~= seq![hex_upper((b / 16) as nat), hex_upper((b % 16) as nat)]);
        assert(cs.subrange(3, cs.len() as int) =~= rest);
        assert(parse_hex_u8(hex) == Some(b));
    }
}

/// Percent-decoding gives back the bytes that were percent-encoded.
pub proof fn law_percent_roundtrip(bs: Seq<u8>)
    ensures
        percent_decode(percent_encode(bs)) == bs,
    decreases bs.len(),
{
    if bs.len() > 0 {
        lemma_percent_encode_first(bs);
        law_percent_roundtrip(bs.drop_first());
        lemma_decode_encoded_byte(bs[0], percent_encode(bs.drop_first()));
        assert(seq![bs[0]] + bs.drop_first() =~= bs);
    } else {
        assert(percent_encode(bs) =~= Seq::<char>::empty());
    }
}

/// A text sent through `url_encode` and `url_decode` comes back unchanged: decoding
/// the encoding gives the text's UTF-8 bytes, which are valid and decode to the text.
pub proof fn law_url_roundtrip(t: Seq<char>)
    ensures
        percent_decode(percent_encode(encode_utf8(t))) == encode_utf8(t),
        valid_utf8(percent_decode(percent_encode(encode_utf8(t)))),
        decode_utf8(percent_decode(percent_encode(encode_utf8(t)))) == t,
{
    law_percent_roundtrip(encode_utf8(t));
    vstd::utf8::encode_utf8_valid_utf8(t);
    vstd::utf8::encode_utf8_decode_utf8(t);
}


/// The text of bytes as a lossy UTF-8 read gives it: the decoding where the bytes are
/// valid UTF-8.
pub open spec fn lossy_text(b: Seq<u8>) -> Seq<char> {
    if valid_utf8(b) {
        decode_utf8(b)
    } else {
        utf8_lossy(b)
    }
}

/// Percent-encoded text holds no `/`.
pub proof fn lemma_percent_encode_no_slash(bs: Seq<u8>)
    ensures
        forall|i: int| 0 <= i < percent_encode(bs).len() ==> percent_encode(bs)[i] != '/',
    decreases bs.len(),
{
    if bs.len() > 0 {
        lemma_percent_encode_no_slash(bs.drop_last());
        let prev = percent_encode(bs.drop_last());
        let piece = encoded_byte(bs.last());
        assert(percent_encode(bs) == prev + piece);
        assert forall|i: int| 0 <= i < piece.len() implies piece[i] != '/' by {
            if !is_unreserved(bs.last()) {
                let b = bs.last();
                assert(piece == seq!['%', hex_upper((b / 16) as nat), hex_upper((b % 16) as nat)]);
            }
        }
        assert forall|i: int| 0 <= i < percent_encode(bs).len() implies percent_encode(bs)[i] != '/' by {
            if i < prev.len() {
                assert(percent_encode(bs)[i] == prev[i]);
            } else {
                assert(percent_encode(bs)[i] == piece[i - prev.len()]);
            }
        }
    }
}

} // verus!

//! Byte-text codec: the canonical hex encoding of instruction bytes
//! (lowercase, two hex digits per byte, a single space between bytes) and the
//! lenient decoder that reconstructs bytes from edited text, skipping
//! arbitrary interior whitespace and turning any malformed digit group into
//! the byte zero.

use vstd::prelude::*;

verus! {

/// Characters the lenient decoder skips over entirely.
pub open spec fn is_hex_space(c: char) -> bool {
    c == ' ' || c == '\t' || c == '\n' || c == '\r'
}

/// Digits the decoder accepts: the canonical lowercase form and, leniently,
/// uppercase.
pub open spec fn is_hex_digit(c: char) -> bool {
    (48 <= c as u32 && c as u32 <= 57)  // '0' ..= '9'
    || (97 <= c as u32 && c as u32 <= 102)  // 'a' ..= 'f'
    || (65 <= c as u32 && c as u32 <= 70)  // 'A' ..= 'F'
}

/// Numeric value of an accepted hex digit; zero on anything else.
pub open spec fn hex_digit_val(c: char) -> u8 {
    if 48 <= c as u32 && c as u32 <= 57 {
        (c as u32 - 48) as u8
    } else if 97 <= c as u32 && c as u32 <= 102 {
        (c as u32 - 87) as u8
    } else if 65 <= c as u32 && c as u32 <= 70 {
        (c as u32 - 55) as u8
    } else {
        0
    }
}

/// The canonical (lowercase) digit for a value below 16; 'f' above that.
pub open spec fn hex_char_of(n: u8) -> char {
    if n == 0 {
        '0'
    } else if n == 1 {
        '1'
    } else if n == 2 {
        '2'
    } else if n == 3 {
        '3'
    } else if n == 4 {
        '4'
    } else if n == 5 {
        '5'
    } else if n == 6 {
        '6'
    } else if n == 7 {
        '7'
    } else if n == 8 {
        '8'
    } else if n == 9 {
        '9'
    } else if n == 10 {
        'a'
    } else if n == 11 {
        'b'
    } else if n == 12 {
        'c'
    } else if n == 13 {
        'd'
    } else if n == 14 {
        'e'
    } else {
        'f'
    }
}

/// Canonical byte text of a byte sequence: two lowercase digits per byte,
/// one space between bytes, no leading or trailing separator.
pub open spec fn hex_encode(bytes: Seq<u8>) -> Seq<char>
    decreases bytes.len(),
{
    if bytes.len() == 0 {
        Seq::<char>::empty()
    } else if bytes.len() == 1 {
        seq![hex_char_of(bytes[0] / 16), hex_char_of(bytes[0] % 16)]
    } else {
        seq![hex_char_of(bytes[0] / 16), hex_char_of(bytes[0] % 16), ' '] + hex_encode(
            bytes.drop_first(),
        )
    }
}

/// Text with every whitespace character removed.
pub open spec fn strip_spaces(s: Seq<char>) -> Seq<char>
    decreases s.len(),
{
    if s.len() == 0 {
        Seq::<char>::empty()
    } else {
        (if is_hex_space(s[0]) {
            Seq::<char>::empty()
        } else {
            seq![s[0]]
        }) + strip_spaces(s.drop_first())
    }
}

/// The byte a two-digit group decodes to: zero if either digit is malformed.
pub open spec fn pair_val(a: char, b: char) -> u8 {
    if is_hex_digit(a) && is_hex_digit(b) {
        (16 * hex_digit_val(a) + hex_digit_val(b)) as u8
    } else {
        0
    }
}

/// The byte a trailing single digit decodes to: its own value, zero if
/// malformed.
pub open spec fn single_val(a: char) -> u8 {
    if is_hex_digit(a) {
        hex_digit_val(a)
    } else {
        0
    }
}

/// Decode a whitespace-free digit string, two digits per byte, a trailing
/// odd digit standing for its own value.
pub open spec fn decode_digits(s: Seq<char>) -> Seq<u8>
    decreases s.len(),
{
    if s.len() == 0 {
        Seq::<u8>::empty()
    } else if s.len() == 1 {
        seq![single_val(s[0])]
    } else {
        seq![pair_val(s[0], s[1])] + decode_digits(s.skip(2))
    }
}

/// The lenient decode of arbitrary byte text: strip all whitespace, then
/// read two hex digits per byte.
pub open spec fn hex_decode(s: Seq<char>) -> Seq<u8> {
    decode_digits(strip_spaces(s))
}

/// The canonical digit for a value below 16 round-trips through the decoder.
proof fn lemma_hex_char_val(n: u8)
    requires
        n < 16,
    ensures
        is_hex_digit(hex_char_of(n)),
        hex_digit_val(hex_char_of(n)) == n,
        !is_hex_space(hex_char_of(n)),
{
}

/// Appending one byte extends the encoding by a separator (when the
/// sequence was nonempty) and the byte's two digits.
proof fn lemma_hex_encode_push(bytes: Seq<u8>, b: u8)
    ensures
        hex_encode(bytes.push(b)) == if bytes.len() == 0 {
            seq![hex_char_of(b / 16), hex_char_of(b % 16)]
        } else {
            hex_encode(bytes) + seq![' ', hex_char_of(b / 16), hex_char_of(b % 16)]
        },
    decreases bytes.len(),
{
    let hi = hex_char_of(b / 16);
    let lo = hex_char_of(b % 16);
    if bytes.len() == 0 {
        assert(bytes.push(b) =~= seq![b]);
        assert(hex_encode(seq![b]) =~= seq![hi, lo]);
    } else {
        let p = bytes.push(b);
        assert(p.len() >= 2);
        assert(p.drop_first() =~= bytes.drop_first().push(b));
        lemma_hex_encode_push(bytes.drop_first(), b);
        if bytes.len() == 1 {
            let h0 = hex_char_of(bytes[0] / 16);
            let l0 = hex_char_of(bytes[0] % 16);
            assert(hex_encode(p) =~= seq![h0, l0, ' '] + seq![hi, lo]);
            assert(hex_encode(bytes) + seq![' ', hi, lo] =~= seq![h0, l0] + seq![' ', hi, lo]);
            assert(hex_encode(p) =~= hex_encode(bytes) + seq![' ', hi, lo]);
        } else {
            assert(hex_encode(p) =~= hex_encode(bytes) + seq![' ', hi, lo]);
        }
    }
}

/// Stripping a single character keeps it unless it is whitespace.
proof fn lemma_strip_single(c: char)
    ensures
        strip_spaces(seq![c]) == if is_hex_space(c) {
            Seq::<char>::empty()
        } else {
            seq![c]
        },
{
    let s = seq![c];
    assert(s.drop_first() =~= Seq::<char>::empty());
    assert(strip_spaces(Seq::<char>::empty()) =~= Seq::<char>::empty());
    if is_hex_space(c) {
        assert(strip_spaces(s) =~= Seq::<char>::empty());
    } else {
        assert(strip_spaces(s) =~= seq![c]);
    }
}

/// A two-character group decodes to exactly its pair value.
proof fn lemma_decode_pair(a: char, b: char)
    ensures
        decode_digits(seq![a, b]) == seq![pair_val(a, b)],
{
    let s = seq![a, b];
    assert(s.skip(2) =~= Seq::<char>::empty());
    assert(decode_digits(Seq::<char>::empty()) =~= Seq::<u8>::empty());
    assert(decode_digits(s) =~= seq![pair_val(a, b)]);
}

/// A single trailing digit decodes to its own value.
proof fn lemma_decode_single(a: char)
    ensures
        decode_digits(seq![a]) == seq![single_val(a)],
{
    assert(decode_digits(seq![a]) =~= seq![single_val(a)]);
}

/// Stripping whitespace distributes over concatenation.
proof fn lemma_strip_append(s: Seq<char>, t: Seq<char>)
    ensures
        strip_spaces(s + t) == strip_spaces(s) + strip_spaces(t),
    decreases s.len(),
{
    if s.len() == 0 {
        assert(s + t =~= t);
        assert(strip_spaces(s) + strip_spaces(t) =~= strip_spaces(t));
    } else {
        assert((s + t).drop_first() =~= s.drop_first() + t);
        lemma_strip_append(s.drop_first(), t);
        assert(strip_spaces(s + t) =~= strip_spaces(s) + strip_spaces(t));
    }
}

/// Decoding distributes over concatenation when the first part pairs up
/// evenly.
proof fn lemma_decode_append(s: Seq<char>, t: Seq<char>)
    requires
        s.len() % 2 == 0,
    ensures
        decode_digits(s + t) == decode_digits(s) + decode_digits(t),
    decreases s.len(),
{
    if s.len() == 0 {
        assert(s + t =~= t);
        assert(decode_digits(s) + decode_digits(t) =~= decode_digits(t));
    } else {
        assert(s.len() >= 2);
        let u = s + t;
        if t.len() == 0 {
            assert(u =~= s);
            assert(decode_digits(s) + decode_digits(t) =~= decode_digits(s));
        } else {
            assert(u.len() >= 2);
            assert(u.skip(2) =~= s.skip(2) + t);
            lemma_decode_append(s.skip(2), t);
            assert(decode_digits(u) =~= decode_digits(s) + decode_digits(t));
        }
    }
}

/// Whitespace-free digit text of a byte sequence: what stripping the
/// canonical encoding leaves.
spec fn digit_text(bytes: Seq<u8>) -> Seq<char>
    decreases bytes.len(),
{
    if bytes.len() == 0 {
        Seq::<char>::empty()
    } else {
        seq![hex_char_of(bytes[0] / 16), hex_char_of(bytes[0] % 16)] + digit_text(
            bytes.drop_first(),
        )
    }
}

proof fn lemma_strip_encode(bytes: Seq<u8>)
    ensures
        strip_spaces(hex_encode(bytes)) == digit_text(bytes),
    decreases bytes.len(),
{
    if bytes.len() == 0 {
    } else {
        let b = bytes[0];
        lemma_hex_char_val(b / 16);
        lemma_hex_char_val(b % 16);
        lemma_strip_encode(bytes.drop_first());
        let hi = hex_char_of(b / 16);
        let lo = hex_char_of(b % 16);
        lemma_strip_single(hi);
        lemma_strip_single(lo);
        lemma_strip_single(' ');
        if bytes.len() == 1 {
            assert(hex_encode(bytes) =~= seq![hi] + seq![lo]);
            lemma_strip_append(seq![hi], seq![lo]);
            assert(strip_spaces(hex_encode(bytes)) =~= digit_text(bytes));
        } else {
            let head = seq![hi, lo, ' '];
            assert(hex_encode(bytes) =~= head + hex_encode(bytes.drop_first()));
            lemma_strip_append(head, hex_encode(bytes.drop_first()));
            assert(head =~= seq![hi] + (seq![lo] + seq![' ']));
            lemma_strip_append(seq![hi], seq![lo] + seq![' ']);
            lemma_strip_append(seq![lo], seq![' ']);
            assert(strip_spaces(head) =~= seq![hi, lo]);
            assert(strip_spaces(hex_encode(bytes)) =~= digit_text(bytes));
        }
    }
}

proof fn lemma_decode_digit_text(bytes: Seq<u8>)
    ensures
        decode_digits(digit_text(bytes)) == bytes,
    decreases bytes.len(),
{
    if bytes.len() == 0 {
        assert(decode_digits(digit_text(bytes)) =~= bytes);
    } else {
        let b = bytes[0];
        lemma_hex_char_val(b / 16);
        lemma_hex_char_val(b % 16);
        assert(b == 16 * (b / 16) + b % 16) by (nonlinear_arith);
        lemma_decode_digit_text(bytes.drop_first());
        let d = digit_text(bytes);
        assert(d.len() >= 2);
        assert(d.skip(2) =~= digit_text(bytes.drop_first()));
        assert(pair_val(d[0], d[1]) == b);
        assert(decode_digits(d) =~= bytes);
    }
}

/// Law: decoding the canonical encoding of any byte sequence gives the
/// sequence back.
pub proof fn lemma_hex_round_trip(bytes: Seq<u8>)
    ensures
        hex_decode(hex_encode(bytes)) == bytes,
{
    lemma_strip_encode(bytes);
    lemma_decode_digit_text(bytes);
}

/// A canonical (lowercase) hex digit.
pub open spec fn is_lower_hex_digit(c: char) -> bool {
    (48 <= c as u32 && c as u32 <= 57) || (97 <= c as u32 && c as u32 <= 102)
}

/// Law: the encoding is made of two-digit lowercase groups joined by single
/// spaces — three characters per byte save the missing final separator, a
/// space exactly at every third position.
pub proof fn lemma_hex_encode_format(bytes: Seq<u8>)
    ensures
        hex_encode(bytes).len() == if bytes.len() == 0 {
            0int
        } else {
            3 * bytes.len() - 1
        },
        forall|i: int|
            0 <= i < hex_encode(bytes).len() ==> if i % 3 == 2 {
                hex_encode(bytes)[i] == ' '
            } else {
                is_lower_hex_digit(#[trigger] hex_encode(bytes)[i])
            },
    decreases bytes.len(),
{
    if bytes.len() == 0 {
    } else if bytes.len() == 1 {
        lemma_hex_char_val(bytes[0] / 16);
        lemma_hex_char_val(bytes[0] % 16);
    } else {
        let b = bytes[0];
        lemma_hex_char_val(b / 16);
        lemma_hex_char_val(b % 16);
        lemma_hex_encode_format(bytes.drop_first());
        let e = hex_encode(bytes);
        let rest = hex_encode(bytes.drop_first());
        assert(e =~= seq![hex_char_of(b / 16), hex_char_of(b % 16), ' '] + rest);
        assert forall|i: int| 0 <= i < e.len() implies if i % 3 == 2 {
            e[i] == ' '
        } else {
            is_lower_hex_digit(#[trigger] e[i])
        } by {
            if i >= 3 {
                assert(e[i] == rest[i - 3]);
                assert((i - 3) % 3 == i % 3);
            }
        }
    }
}

/// Whether a character is whitespace the decoder skips.
fn space_char(c: char) -> (r: bool)
    ensures
        r == is_hex_space(c),
{
    c == ' ' || c == '\t' || c == '\n' || c == '\r'
}

/// Whether a character is an accepted hex digit.
fn digit_char(c: char) -> (r: bool)
    ensures
        r == is_hex_digit(c),
{
    let u = c as u32;
    (48 <= u && u <= 57) || (97 <= u && u <= 102) || (65 <= u && u <= 70)
}

/// Numeric value of an accepted hex digit.
fn digit_val(c: char) -> (r: u8)
    ensures
        r == hex_digit_val(c),
{
    let u = c as u32;
    if 48 <= u && u <= 57 {
        (u - 48) as u8
    } else if 97 <= u && u <= 102 {
        (u - 87) as u8
    } else if 65 <= u && u <= 70 {
        (u - 55) as u8
    } else {
        0
    }
}

/// The canonical digit character for a value below 16.
fn digit_char_of(n: u8) -> (r: char)
    ensures
        r == hex_char_of(n),
{
    if n == 0 {
        '0'
    } else if n == 1 {
        '1'
    } else if n == 2 {
        '2'
    } else if n == 3 {
        '3'
    } else if n == 4 {
        '4'
    } else if n == 5 {
        '5'
    } else if n == 6 {
        '6'
    } else if n == 7 {
        '7'
    } else if n == 8 {
        '8'
    } else if n == 9 {
        '9'
    } else if n == 10 {
        'a'
    } else if n == 11 {
        'b'
    } else if n == 12 {
        'c'
    } else if n == 13 {
        'd'
    } else if n == 14 {
        'e'
    } else {
        'f'
    }
}

/// Canonical byte text of a byte sequence.
pub fn to_hexstring(bytes: &[u8]) -> (r: Vec<char>)
    ensures
        r@ == hex_encode(bytes@),
{
    let mut out: Vec<char> = Vec::new();
    let mut i: usize = 0;
    while i < bytes.len()
        invariant
            i <= bytes@.len(),
            out@ == hex_encode(bytes@.take(i as int)),
        decreases bytes@.len() - i,
    {
        let b = bytes[i];
        proof {
            lemma_hex_encode_push(bytes@.take(i as int), b);
            assert(bytes@.take(i + 1) =~= bytes@.take(i as int).push(b));
        }
        if i > 0 {
            out.push(' ');
        }
        out.push(digit_char_of(b / 16));
        out.push(digit_char_of(b % 16));
        proof {
            assert(out@ =~= hex_encode(bytes@.take(i + 1)));
        }
        i = i + 1;
    }
    proof {
        assert(bytes@.take(bytes@.len() as int) =~= bytes@);
    }
    out
}

/// Lenient decode of byte text back into raw bytes: all whitespace is
/// skipped, then each two-digit group becomes one byte, any malformed group
/// the byte zero, a trailing odd digit its own value.
pub fn from_hexstring(text: &Vec<char>) -> (r: Vec<u8>)
    ensures
        r@ == hex_decode(text@),
{
    let mut stripped: Vec<char> = Vec::new();
    let mut i: usize = 0;
    while i < text.len()
        invariant
            i <= text@.len(),
            stripped@ == strip_spaces(text@.take(i as int)),
        decreases text@.len() - i,
    {
        let c = text[i];
        proof {
            lemma_strip_append(text@.take(i as int), seq![c]);
            lemma_strip_single(c);
            assert(text@.take(i + 1) =~= text@.take(i as int) + seq![c]);
        }
        if !space_char(c) {
            stripped.push(c);
        }
        proof {
            assert(stripped@ =~= strip_spaces(text@.take(i + 1)));
        }
        i = i + 1;
    }
    proof {
        assert(text@.take(text@.len() as int) =~= text@);
    }

    let n = stripped.len();
    let mut out: Vec<u8> = Vec::new();
    let mut j: usize = 0;
    while j + 1 < n
        invariant
            j <= n,
            n == stripped@.len(),
            j % 2 == 0,
            out@ == decode_digits(stripped@.take(j as int)),
        decreases n - j,
    {
        let a = stripped[j];
        let b = stripped[j + 1];
        let v: u8 = if digit_char(a) && digit_char(b) {
            16 * digit_val(a) + digit_val(b)
        } else {
            0
        };
        proof {
            lemma_decode_append(stripped@.take(j as int), seq![a, b]);
            lemma_decode_pair(a, b);
            assert(stripped@.take(j + 2) =~= stripped@.take(j as int) + seq![a, b]);
        }
        out.push(v);
        proof {
            assert(out@ =~= decode_digits(stripped@.take(j + 2)));
        }
        j = j + 2;
    }
    if j < n {
        let a = stripped[j];
        let v: u8 = if digit_char(a) {
            digit_val(a)
        } else {
            0
        };
        proof {
            lemma_decode_append(stripped@.take(j as int), seq![a]);
            lemma_decode_single(a);
            assert(stripped@.take(j + 1) =~= stripped@.take(j as int) + seq![a]);
        }
        out.push(v);
        proof {
            assert(out@ =~= decode_digits(stripped@.take(j + 1)));
        }
        j = j + 1;
    }
    proof {
        assert(stripped@.take(n as int) =~= stripped@);
    }
    out
}

} // verus!

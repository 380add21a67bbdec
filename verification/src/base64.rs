//! Base64 with the standard alphabet and padding.
use crate::chars::push_char;
use vstd::prelude::*;

verus! {

/// The character that stands for six bits.
pub open spec fn sextet_char(n: int) -> char {
    if n < 26 {
        ('A' as u32 + n) as char
    } else if n < 52 {
        ('a' as u32 + (n - 26)) as char
    } else if n < 62 {
        ('0' as u32 + (n - 52)) as char
    } else if n == 62 {
        '+'
    } else {
        '/'
    }
}

/// The base64 form of `bytes`: four characters for each three bytes, the last
/// of them padded with `=`.
pub open spec fn encoded(bytes: Seq<u8>) -> Seq<char>
    decreases bytes.len(),
{
    if bytes.len() == 0 {
        Seq::empty()
    } else if bytes.len() == 1 {
        seq![sextet_char(bytes[0] as int / 4), sextet_char(bytes[0] % 4 * 16), '=', '=']
    } else if bytes.len() == 2 {
        seq![
            sextet_char(bytes[0] as int / 4),
            sextet_char(bytes[0] % 4 * 16 + bytes[1] / 16),
            sextet_char(bytes[1] % 16 * 4),
            '=',
        ]
    } else {
        seq![
            sextet_char(bytes[0] as int / 4),
            sextet_char(bytes[0] % 4 * 16 + bytes[1] / 16),
            sextet_char(bytes[1] % 16 * 4 + bytes[2] / 64),
            sextet_char(bytes[2] as int % 64),
        ] + encoded(bytes.skip(3))
    }
}

/// The six bits that a character of the alphabet stands for.
pub open spec fn char_sextet(c: char) -> int {
    if 'A' <= c <= 'Z' {
        c as int - 'A' as int
    } else if 'a' <= c <= 'z' {
        c as int - 'a' as int + 26
    } else if '0' <= c <= '9' {
        c as int - '0' as int + 52
    } else if c == '+' {
        62
    } else {
        63
    }
}

/// The bytes that a base64 text stands for.
pub open spec fn decoded(s: Seq<char>) -> Seq<u8>
    decreases s.len(),
{
    if s.len() < 4 {
        Seq::empty()
    } else {
        let b0 = (char_sextet(s[0]) * 4 + char_sextet(s[1]) / 16) as u8;
        let b1 = (char_sextet(s[1]) % 16 * 16 + char_sextet(s[2]) / 4) as u8;
        let b2 = (char_sextet(s[2]) % 4 * 64 + char_sextet(s[3])) as u8;
        if s[2] == '=' {
            seq![b0]
        } else if s[3] == '=' {
            seq![b0, b1]
        } else {
            seq![b0, b1, b2] + decoded(s.skip(4))
        }
    }
}

/// The characters of the base64 alphabet, the padding included.
pub open spec fn alphabet_char(c: char) -> bool {
    'A' <= c <= 'Z' || 'a' <= c <= 'z' || '0' <= c <= '9' || c == '+' || c == '/' || c == '='
}

/// The character that stands for six bits.
fn sextet(n: u8) -> (r: char)
    requires
        n < 64,
    ensures
        r == sextet_char(n as int),
{
    if n < 26 {
        ('A' as u8 + n) as char
    } else if n < 52 {
        ('a' as u8 + (n - 26)) as char
    } else if n < 62 {
        ('0' as u8 + (n - 52)) as char
    } else if n == 62 {
        '+'
    } else {
        '/'
    }
}

/// Encodes bytes as base64.
pub fn base64_encode(bytes: &[u8]) -> (r: String)
    ensures
        r@ == encoded(bytes@),
{
    let mut out = String::new();
    let n: usize = bytes.len();
    let mut i: usize = 0;
    assert(bytes@.skip(0) =~= bytes@);
    while i < n
        invariant
            n == bytes@.len(),
            i <= n,
            out@ + encoded(bytes@.skip(i as int)) == encoded(bytes@),
        decreases n - i,
    {
        let ghost rest = bytes@.skip(i as int);
        let ghost before = out@;
        let b0: u8 = bytes[i];
        let b1: u8 = if n - i > 1 {
            bytes[i + 1]
        } else {
            0
        };
        let b2: u8 = if n - i > 2 {
            bytes[i + 2]
        } else {
            0
        };
        push_char(&mut out, sextet(b0 / 4));
        push_char(&mut out, sextet(b0 % 4 * 16 + b1 / 16));
        if n - i > 1 {
            push_char(&mut out, sextet(b1 % 16 * 4 + b2 / 64));
        } else {
            push_char(&mut out, '=');
        }
        if n - i > 2 {
            push_char(&mut out, sextet(b2 % 64));
            i = i + 3;
            assert(rest.skip(3) =~= bytes@.skip(i as int));
        } else {
            push_char(&mut out, '=');
            i = n;
        }
        assert(before + encoded(rest) =~= out@ + encoded(bytes@.skip(i as int)));
    }
    assert(out@ =~= encoded(bytes@));
    out
}

/// Six bits are the character that stands for them.
proof fn sextets_round_trip(n: int)
    requires
        0 <= n < 64,
    ensures
        char_sextet(sextet_char(n)) == n,
        alphabet_char(sextet_char(n)),
        sextet_char(n) != '=',
{
}

/// Decoding gives back what was encoded.
pub proof fn decoding_undoes_encoding(bytes: Seq<u8>)
    ensures
        decoded(encoded(bytes)) == bytes,
    decreases bytes.len(),
{
    let s = encoded(bytes);
    if bytes.len() == 0 {
        assert(decoded(s) =~= bytes);
    } else {
        let n = bytes.len();
        let b0 = bytes[0] as int;
        let b1 = if n > 1 {
            bytes[1] as int
        } else {
            0
        };
        let b2 = if n > 2 {
            bytes[2] as int
        } else {
            0
        };
        sextets_round_trip(b0 / 4);
        sextets_round_trip(b0 % 4 * 16 + b1 / 16);
        sextets_round_trip(b1 % 16 * 4 + b2 / 64);
        sextets_round_trip(b2 % 64);
        if n > 2 {
            decoding_undoes_encoding(bytes.skip(3));
            assert(s.skip(4) =~= encoded(bytes.skip(3)));
            assert(decoded(s) =~= seq![bytes[0], bytes[1], bytes[2]] + bytes.skip(3));
            assert(seq![bytes[0], bytes[1], bytes[2]] + bytes.skip(3) =~= bytes);
        } else {
            assert(decoded(s) =~= bytes);
        }
    }
}

/// An encoded text holds characters of the alphabet only: nothing in it ends
/// or begins an escape sequence.
pub proof fn encoded_is_in_alphabet(bytes: Seq<u8>)
    ensures
        forall|i: int| 0 <= i < encoded(bytes).len() ==> alphabet_char(#[trigger] encoded(bytes)[i]),
    decreases bytes.len(),
{
    if bytes.len() > 2 {
        let rest = encoded(bytes.skip(3));
        encoded_is_in_alphabet(bytes.skip(3));
        assert forall|i: int| 0 <= i < encoded(bytes).len() implies alphabet_char(
            #[trigger] encoded(bytes)[i],
        ) by {
            if i >= 4 {
                assert(encoded(bytes)[i] == rest[i - 4]);
            }
        }
    }
}

/// The letters stand for the first numbers, upper case before lower case. The
/// ten digits, the plus sign and the slash follow.
pub proof fn the_alphabet_is_the_standard_one(n: int)
    requires
        0 <= n < 64,
    ensures
        n < 26 ==> sextet_char(n) as int == 'A' as int + n,
        26 <= n < 52 ==> sextet_char(n) as int == 'a' as int + n - 26,
        52 <= n < 62 ==> sextet_char(n) as int == '0' as int + n - 52,
        n == 62 ==> sextet_char(n) == '+',
        n == 63 ==> sextet_char(n) == '/',
{
}

/// Four characters hold the bits of three bytes, the first ones in front:
/// read as one number of 24 bits they are the same.
pub proof fn four_characters_hold_three_bytes(bytes: Seq<u8>, i: int)
    requires
        0 <= i,
        3 * i + 2 < bytes.len(),
    ensures
        ({
            let s = encoded(bytes);
            exists|a: int, b: int, c: int, d: int|
                0 <= a < 64 && 0 <= b < 64 && 0 <= c < 64 && 0 <= d < 64
                    && s[4 * i] == #[trigger] sextet_char(a) && s[4 * i + 1]
                    == #[trigger] sextet_char(b) && s[4 * i + 2] == #[trigger] sextet_char(c)
                    && s[4 * i + 3] == #[trigger] sextet_char(d) && a * 0x4_0000 + b * 0x1000 + c
                    * 0x40 + d == bytes[3 * i] * 0x1_0000 + bytes[3 * i + 1] * 0x100 + bytes[3 * i
                    + 2]
        }),
    decreases i,
{
    let s = encoded(bytes);
    if i == 0 {
        let x = bytes[0] as int;
        let y = bytes[1] as int;
        let z = bytes[2] as int;
        let a = x / 4;
        let b = x % 4 * 16 + y / 16;
        let c = y % 16 * 4 + z / 64;
        let d = z % 64;
        assert(s[0] == sextet_char(a) && s[1] == sextet_char(b) && s[2] == sextet_char(c) && s[3]
            == sextet_char(d));
        assert(a * 0x4_0000 + b * 0x1000 + c * 0x40 + d == x * 0x1_0000 + y * 0x100 + z);
    } else {
        let rest = bytes.skip(3);
        four_characters_hold_three_bytes(rest, i - 1);
        assert(rest[3 * (i - 1)] == bytes[3 * i]);
        assert(rest[3 * (i - 1) + 1] == bytes[3 * i + 1]);
        assert(rest[3 * (i - 1) + 2] == bytes[3 * i + 2]);
        lengths_of_encoded(rest);
        assert(s[4 * i] == encoded(rest)[4 * (i - 1)]);
        assert(s[4 * i + 1] == encoded(rest)[4 * (i - 1) + 1]);
        assert(s[4 * i + 2] == encoded(rest)[4 * (i - 1) + 2]);
        assert(s[4 * i + 3] == encoded(rest)[4 * (i - 1) + 3]);
    }
}

/// A text is encoded with four characters for each three bytes, begun ones
/// included.
pub proof fn lengths_of_encoded(bytes: Seq<u8>)
    ensures
        encoded(bytes).len() == (bytes.len() + 2) / 3 * 4,
    decreases bytes.len(),
{
    if bytes.len() > 2 {
        lengths_of_encoded(bytes.skip(3));
    }
}

/// A text whose length is no multiple of three is encoded as though bytes of
/// zero followed, with an equals sign for each character that stands for none
/// of its bits.
pub proof fn short_ends_are_padded(a: u8, b: u8)
    ensures
        ({
            let one = encoded(seq![a]);
            let full = encoded(seq![a, 0, 0]);
            &&& one.len() == 4
            &&& one[0] == full[0]
            &&& one[1] == full[1]
            &&& one[2] == '='
            &&& one[3] == '='
        }),
        ({
            let two = encoded(seq![a, b]);
            let full = encoded(seq![a, b, 0]);
            &&& two.len() == 4
            &&& two[0] == full[0]
            &&& two[1] == full[1]
            &&& two[2] == full[2]
            &&& two[3] == '='
        }),
{
}

} // verus!

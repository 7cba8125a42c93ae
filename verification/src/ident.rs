//! Caller-supplied 128-bit object identifiers.
//!
//! An identifier is opaque to the store: it is never generated here and
//! never parsed as content. Two designated bytes of it pick the two shard
//! directories of the on-disk layout, and its canonical lowercase
//! hyphenated rendering names the file itself.

use vstd::prelude::*;

verus! {

/// A 128-bit object identifier, held as the big-endian integer reading of
/// its sixteen bytes: byte 0 is the most significant byte and is the first
/// pair of digits of the hyphenated rendering.
#[derive(Clone, Copy, Debug, PartialEq, Eq, Structural)]
pub struct ImageId(pub u128);

/// Byte `i` (0-based, most significant first) of the identifier value `u`.
pub open spec fn id_byte(u: u128, i: int) -> u8 {
    ((u >> ((8 * (15 - i)) as u128)) & 0xff) as u8
}

/// The lowercase hexadecimal digit for a nibble.
pub open spec fn hex_char(n: u8) -> char {
    if n == 0 { '0' }
    else if n == 1 { '1' }
    else if n == 2 { '2' }
    else if n == 3 { '3' }
    else if n == 4 { '4' }
    else if n == 5 { '5' }
    else if n == 6 { '6' }
    else if n == 7 { '7' }
    else if n == 8 { '8' }
    else if n == 9 { '9' }
    else if n == 10 { 'a' }
    else if n == 11 { 'b' }
    else if n == 12 { 'c' }
    else if n == 13 { 'd' }
    else if n == 14 { 'e' }
    else { 'f' }
}

/// Two lowercase hex digits for a byte, zero-padded.
pub open spec fn byte_hex(b: u8) -> Seq<char> {
    seq![hex_char(b / 16), hex_char(b % 16)]
}

/// Lowercase hex digits for a byte without zero-padding: one digit below
/// 16, two otherwise. This is the rendering used for shard directories.
pub open spec fn byte_hex_short(b: u8) -> Seq<char> {
    if b < 16 {
        seq![hex_char(b)]
    } else {
        seq![hex_char(b / 16), hex_char(b % 16)]
    }
}

/// The canonical hyphenated rendering of an identifier: 32 lowercase hex
/// digits in byte order with hyphens after bytes 4, 6, 8 and 10.
pub open spec fn uuid_chars(u: u128) -> Seq<char> {
    byte_hex(id_byte(u, 0)) + byte_hex(id_byte(u, 1)) + byte_hex(id_byte(u, 2))
        + byte_hex(id_byte(u, 3)) + seq!['-'] + byte_hex(id_byte(u, 4)) + byte_hex(id_byte(u, 5))
        + seq!['-'] + byte_hex(id_byte(u, 6)) + byte_hex(id_byte(u, 7)) + seq!['-'] + byte_hex(
        id_byte(u, 8),
    ) + byte_hex(id_byte(u, 9)) + seq!['-'] + byte_hex(id_byte(u, 10)) + byte_hex(id_byte(u, 11))
        + byte_hex(id_byte(u, 12)) + byte_hex(id_byte(u, 13)) + byte_hex(id_byte(u, 14)) + byte_hex(
        id_byte(u, 15),
    )
}

/// The one-character string for a lowercase hex digit.
pub fn hex_str(n: u8) -> (r: &'static str)
    requires
        n < 16,
    ensures
        r@ == seq![hex_char(n)],
{
    match n {
        0 => {
            proof {
                reveal_strlit("0");
                assert("0"@ =~= seq![hex_char(0u8)]);
            }
            "0"
        },
        1 => {
            proof {
                reveal_strlit("1");
                assert("1"@ =~= seq![hex_char(1u8)]);
            }
            "1"
        },
        2 => {
            proof {
                reveal_strlit("2");
                assert("2"@ =~= seq![hex_char(2u8)]);
            }
            "2"
        },
        3 => {
            proof {
                reveal_strlit("3");
                assert("3"@ =~= seq![hex_char(3u8)]);
            }
            "3"
        },
        4 => {
            proof {
                reveal_strlit("4");
                assert("4"@ =~= seq![hex_char(4u8)]);
            }
            "4"
        },
        5 => {
            proof {
                reveal_strlit("5");
                assert("5"@ =~= seq![hex_char(5u8)]);
            }
            "5"
        },
        6 => {
            proof {
                reveal_strlit("6");
                assert("6"@ =~= seq![hex_char(6u8)]);
            }
            "6"
        },
        7 => {
            proof {
                reveal_strlit("7");
                assert("7"@ =~= seq![hex_char(7u8)]);
            }
            "7"
        },
        8 => {
            proof {
                reveal_strlit("8");
                assert("8"@ =~= seq![hex_char(8u8)]);
            }
            "8"
        },
        9 => {
            proof {
                reveal_strlit("9");
                assert("9"@ =~= seq![hex_char(9u8)]);
            }
            "9"
        },
        10 => {
            proof {
                reveal_strlit("a");
                assert("a"@ =~= seq![hex_char(10u8)]);
            }
            "a"
        },
        11 => {
            proof {
                reveal_strlit("b");
                assert("b"@ =~= seq![hex_char(11u8)]);
            }
            "b"
        },
        12 => {
            proof {
                reveal_strlit("c");
                assert("c"@ =~= seq![hex_char(12u8)]);
            }
            "c"
        },
        13 => {
            proof {
                reveal_strlit("d");
                assert("d"@ =~= seq![hex_char(13u8)]);
            }
            "d"
        },
        14 => {
            proof {
                reveal_strlit("e");
                assert("e"@ =~= seq![hex_char(14u8)]);
            }
            "e"
        },
        _ => {
            proof {
                reveal_strlit("f");
                assert("f"@ =~= seq![hex_char(15u8)]);
            }
            "f"
        },
    }
}

/// Appends the two zero-padded hex digits of `b` to `s`.
pub fn push_byte_hex(s: &mut String, b: u8)
    ensures
        final(s)@ == old(s)@ + byte_hex(b),
{
    s.append(hex_str(b / 16));
    s.append(hex_str(b % 16));
    proof {
        assert(s@ =~= old(s)@ + byte_hex(b));
    }
}

/// Appends a single hyphen to `s`.
pub fn push_hyphen(s: &mut String)
    ensures
        final(s)@ == old(s)@ + seq!['-'],
{
    proof {
        reveal_strlit("-");
        assert("-"@ =~= seq!['-']);
    }
    s.append("-");
}

impl ImageId {
    /// Byte `i` of the identifier, most significant first.
    pub fn byte_at(&self, i: usize) -> (r: u8)
        requires
            i < 16,
        ensures
            r == id_byte(self.0, i as int),
    {
        let v: u128 = self.0;
        let sh: u128 = (8 * (15 - i)) as u128;
        proof {
            assert((v >> sh) & 0xff < 256) by (bit_vector);
        }
        ((v >> sh) & 0xff) as u8
    }

    /// The byte that picks the first shard directory.
    pub fn shard_a(&self) -> (r: u8)
        ensures
            r == id_byte(self.0, 10),
    {
        self.byte_at(10)
    }

    /// The byte that picks the second shard directory.
    pub fn shard_b(&self) -> (r: u8)
        ensures
            r == id_byte(self.0, 11),
    {
        self.byte_at(11)
    }

    /// The canonical lowercase hyphenated rendering of the identifier.
    pub fn to_hyphenated(&self) -> (r: String)
        ensures
            r@ == uuid_chars(self.0),
    {
        let mut s = String::new();
        push_byte_hex(&mut s, self.byte_at(0));
        push_byte_hex(&mut s, self.byte_at(1));
        push_byte_hex(&mut s, self.byte_at(2));
        push_byte_hex(&mut s, self.byte_at(3));
        push_hyphen(&mut s);
        push_byte_hex(&mut s, self.byte_at(4));
        push_byte_hex(&mut s, self.byte_at(5));
        push_hyphen(&mut s);
        push_byte_hex(&mut s, self.byte_at(6));
        push_byte_hex(&mut s, self.byte_at(7));
        push_hyphen(&mut s);
        push_byte_hex(&mut s, self.byte_at(8));
        push_byte_hex(&mut s, self.byte_at(9));
        push_hyphen(&mut s);
        push_byte_hex(&mut s, self.byte_at(10));
        push_byte_hex(&mut s, self.byte_at(11));
        push_byte_hex(&mut s, self.byte_at(12));
        push_byte_hex(&mut s, self.byte_at(13));
        push_byte_hex(&mut s, self.byte_at(14));
        push_byte_hex(&mut s, self.byte_at(15));
        proof {
            assert(s@ =~= uuid_chars(self.0));
        }
        s
    }
}

/// The shard-directory rendering of a byte: lowercase hex, no padding.
pub fn byte_hex_short_str(b: u8) -> (r: String)
    ensures
        r@ == byte_hex_short(b),
{
    let mut s = String::new();
    if b >= 16 {
        s.append(hex_str(b / 16));
    }
    s.append(hex_str(b % 16));
    proof {
        assert(s@ =~= byte_hex_short(b));
    }
    s
}

} // verus!

//! Block ids as hexadecimal text: 64 hex digits, two per byte, high digit first.
//! Writing uses lower-case digits; reading takes either case, as `hex::decode` does.

use vstd::prelude::*;
use crate::flow::journal::string_from_chars;

verus! {

/// The value of a hexadecimal digit, if `c` is one.
pub open spec fn hex_value(c: char) -> Option<u8> {
    let v = c as u32;
    if 48 <= v <= 57 {
        Some((v - 48) as u8)
    } else if 97 <= v <= 102 {
        Some((v - 87) as u8)
    } else if 65 <= v <= 70 {
        Some((v - 55) as u8)
    } else {
        None
    }
}

/// `s` is 64 hexadecimal digits.
pub open spec fn is_block_id_hex(s: Seq<char>) -> bool {
    s.len() == 64 && forall|i: int| 0 <= i < 64 ==> (#[trigger] hex_value(s[i])) is Some
}

/// The 32 bytes that 64 hexadecimal digits spell, two digits per byte.
pub open spec fn hex_bytes(s: Seq<char>) -> Seq<u8> {
    Seq::new(32, |i: int| (hex_value(s[2 * i])->0 * 16 + hex_value(s[2 * i + 1])->0) as u8)
}

/// The block id that `s` spells, if it is 64 hexadecimal digits.
pub open spec fn hex_block_id(s: Seq<char>) -> Option<[u8; 32]> {
    if is_block_id_hex(s) {
        Some(choose|a: [u8; 32]| a@ == hex_bytes(s))
    } else {
        None
    }
}

/// The lower-case hexadecimal digit of `n` (below 16).
pub open spec fn hex_char(n: u8) -> char {
    if n < 10 {
        (n + 48) as char
    } else {
        (n + 87) as char
    }
}

/// The lower-case hexadecimal text of `bytes`, two digits per byte.
pub open spec fn hex_text(bytes: Seq<u8>) -> Seq<char> {
    Seq::new(
        2 * bytes.len(),
        |i: int|
            if i % 2 == 0 {
                hex_char(bytes[i / 2] / 16)
            } else {
                hex_char(bytes[i / 2] % 16)
            },
    )
}

fn digit_value(c: char) -> (r: Option<u8>)
    ensures
        r == hex_value(c),
{
    let v = c as u32;
    if 48 <= v && v <= 57 {
        Some((v - 48) as u8)
    } else if 97 <= v && v <= 102 {
        Some((v - 87) as u8)
    } else if 65 <= v && v <= 70 {
        Some((v - 55) as u8)
    } else {
        None
    }
}

/// The block id spelled by `s`, or `None` unless `s` is exactly 64 hex digits.
pub fn decode_block_id(s: &str) -> (r: Option<[u8; 32]>)
    ensures
        r == hex_block_id(s@),
{
    broadcast use vstd::array::group_array_axioms;

    if s.unicode_len() != 64 {
        return None;
    }
    let mut out = [0u8; 32];
    let mut i: usize = 0;
    while i < 32
        invariant
            s@.len() == 64,
            0 <= i <= 32,
            forall|k: int| 0 <= k < 2 * i ==> (#[trigger] hex_value(s@[k])) is Some,
            forall|k: int| 0 <= k < i ==> out@[k] == hex_bytes(s@)[k],
        decreases 32 - i,
    {
        let hi = digit_value(s.get_char(2 * i));
        let lo = digit_value(s.get_char(2 * i + 1));
        match (hi, lo) {
            (Some(h), Some(l)) => {
                out[i] = h * 16 + l;
            },
            _ => {
                proof {
                    if hi is None {
                        assert(hex_value(s@[2 * i as int]) is None);
                    } else {
                        assert(hex_value(s@[2 * i + 1]) is None);
                    }
                }
                return None;
            },
        }
        i = i + 1;
    }
    proof {
        assert(is_block_id_hex(s@));
        assert(out@ =~= hex_bytes(s@));
        let a = choose|a: [u8; 32]| a@ == hex_bytes(s@);
        assert(a@ == hex_bytes(s@));
        assert(a@ =~= out@);
    }
    Some(out)
}

fn digit_char(n: u8) -> (c: char)
    requires
        n < 16,
    ensures
        c == hex_char(n),
{
    if n < 10 {
        (n + 48) as char
    } else {
        (n + 87) as char
    }
}

/// The lower-case hexadecimal text of a block id.
pub fn block_id_hex(id: &[u8; 32]) -> (r: String)
    ensures
        r@ == hex_text(id@),
{
    let mut chars: Vec<char> = Vec::new();
    let mut i: usize = 0;
    while i < 32
        invariant
            0 <= i <= 32,
            chars@ == hex_text(id@).take(2 * i),
        decreases 32 - i,
    {
        let b = id[i];
        chars.push(digit_char(b / 16));
        chars.push(digit_char(b % 16));
        proof {
            assert(chars@ =~= hex_text(id@).take(2 * i + 2));
        }
        i = i + 1;
    }
    proof {
        assert(hex_text(id@).take(64) =~= hex_text(id@));
    }
    string_from_chars(&chars)
}

/// Reading back the hexadecimal text of a block id gives the id.
pub proof fn lemma_block_id_hex_round_trip(id: [u8; 32])
    ensures
        hex_block_id(hex_text(id@)) == Some(id),
{
    broadcast use vstd::array::group_array_axioms;

    let s = hex_text(id@);
    assert forall|i: int| 0 <= i < 64 implies (#[trigger] hex_value(s[i])) is Some by {
        let n: u8 = if i % 2 == 0 { id@[i / 2] / 16 } else { id@[i / 2] % 16 };
        assert(s[i] == hex_char(n));
    }
    assert(hex_bytes(s) =~= id@) by {
        assert forall|i: int| 0 <= i < 32 implies #[trigger] hex_bytes(s)[i] == id@[i] by {
            let b = id@[i];
            assert(s[2 * i] == hex_char(b / 16));
            assert(s[2 * i + 1] == hex_char(b % 16));
            assert(hex_value(hex_char(b / 16)) == Some(b / 16));
            assert(hex_value(hex_char(b % 16)) == Some(b % 16));
            assert((b / 16) * 16 + b % 16 == b) by (nonlinear_arith);
        }
    }
    let a = choose|a: [u8; 32]| a@ == hex_bytes(s);
    assert(a@ == hex_bytes(s));
    assert(a@ =~= id@);
}

} // verus!

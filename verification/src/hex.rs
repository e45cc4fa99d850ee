//! Hexadecimal text.
//!
//! Keys and colours arrive as hexadecimal text, two characters to the byte.
//! A pair is read the way the standard library reads an integer in base 16:
//! digits in either case, with an optional leading `+`.

use vstd::prelude::*;
use vstd::string::StringSliceAdditionalSpecFns;

verus! {

/// Why a text could not be read as hexadecimal.
#[derive(Debug, Clone, Copy, PartialEq, Eq, Structural)]
pub enum HexError {
    /// A pair holds something that is no hexadecimal digit.
    InvalidDigit,
}

/// The value of the ASCII hexadecimal digit `b`.
pub open spec fn digit_value(b: u8) -> Option<u8> {
    if 0x30 <= b <= 0x39 {
        Some((b - 0x30) as u8)
    } else if 0x41 <= b <= 0x46 {
        Some((b - 0x41 + 10) as u8)
    } else if 0x61 <= b <= 0x66 {
        Some((b - 0x61 + 10) as u8)
    } else {
        None
    }
}

/// The value of the two bytes `hi`, `lo` read as a number in base 16: two
/// digits, or a `+` sign and one digit.
pub open spec fn pair_value(hi: u8, lo: u8) -> Option<u8> {
    if hi == 0x2b {
        digit_value(lo)
    } else {
        match (digit_value(hi), digit_value(lo)) {
            (Some(h), Some(l)) => Some((16 * h + l) as u8),
            _ => None,
        }
    }
}

/// The bytes that `text` spells, a pair at a time; `None` as soon as one
/// complete pair is malformed. A single byte left over is not read.
pub open spec fn decoded(text: Seq<u8>) -> Option<Seq<u8>>
    decreases text.len(),
{
    if text.len() < 2 {
        Some(Seq::empty())
    } else {
        match decoded(text.take(text.len() - 2 - text.len() % 2)) {
            None => None,
            Some(front) => {
                let at = text.len() - 2 - text.len() % 2;
                match pair_value(text[at], text[at + 1]) {
                    None => None,
                    Some(v) => Some(front.push(v)),
                }
            },
        }
    }
}

/// A text of odd length all of whose complete pairs are well formed: its last
/// character has no partner.
pub open spec fn dangling(text: Seq<u8>) -> bool {
    text.len() % 2 == 1 && decoded(text).is_some()
}

/// Value of one hexadecimal digit.
pub fn digit(b: u8) -> (v: Option<u8>)
    ensures
        v == digit_value(b),
{
    if 0x30 <= b && b <= 0x39 {
        Some(b - 0x30)
    } else if 0x41 <= b && b <= 0x46 {
        Some(b - 0x41 + 10)
    } else if 0x61 <= b && b <= 0x66 {
        Some(b - 0x61 + 10)
    } else {
        None
    }
}

/// Value of one pair of characters.
pub fn pair(hi: u8, lo: u8) -> (v: Option<u8>)
    ensures
        v == pair_value(hi, lo),
{
    if hi == 0x2b {
        digit(lo)
    } else {
        match (digit(hi), digit(lo)) {
            (Some(h), Some(l)) => Some(16 * h + l),
            _ => None,
        }
    }
}

/// Reads `s` as hexadecimal, two characters to the byte.
///
/// Gives the bytes when every pair is well formed, and `InvalidDigit` when
/// some pair is not. A text whose last character has no partner cannot be
/// read at all.
pub fn decode_hex(s: &str) -> (r: Result<Vec<u8>, HexError>)
    requires
        !dangling(s.spec_bytes()),
    ensures
        match r {
            Ok(bytes) => decoded(s.spec_bytes()) == Some(bytes@),
            Err(e) => e == HexError::InvalidDigit && decoded(s.spec_bytes()).is_none(),
        },
{
    let text = s.as_bytes();
    let mut out: Vec<u8> = Vec::new();
    let mut i: usize = 0;
    while text.len() - i >= 2
        invariant
            i % 2 == 0,
            i <= text@.len(),
            text@ == s.spec_bytes(),
            decoded(text@.take(i as int)) == Some(out@),
        decreases text@.len() - i,
    {
        proof {
            let upto = text@.take(i + 2);
            assert(upto.take(upto.len() - 2 - upto.len() % 2) =~= text@.take(i as int));
            assert(decoded(upto) == match pair_value(text@[i as int], text@[i + 1]) {
                None => None,
                Some(v) => Some(out@.push(v)),
            });
        }
        match pair(text[i], text[i + 1]) {
            Some(v) => {
                out.push(v);
            },
            None => {
                proof {
                    lemma_decoded_prefix(text@, (i + 2) as nat);
                }
                return Err(HexError::InvalidDigit);
            },
        }
        i += 2;
    }
    proof {
        if i == text@.len() {
            assert(text@.take(i as int) =~= text@);
        } else {
            assert(text@.len() == i + 1);
            assert(text@.take(text@.len() - 2 - text@.len() % 2 + 2) =~= text@.take(i as int));
            lemma_decoded_odd(text@);
        }
    }
    Ok(out)
}

/// A single byte left over does not change what a text spells.
proof fn lemma_decoded_odd(text: Seq<u8>)
    requires
        text.len() % 2 == 1,
    ensures
        decoded(text) == decoded(text.take(text.len() - 1)),
    decreases text.len(),
{
    if text.len() >= 2 {
        let even = text.take(text.len() - 1);
        let at = text.len() - 3;
        assert(even.len() % 2 == 0);
        assert(even.take(even.len() - 2) =~= text.take(at));
        assert(even[at] == text[at] && even[at + 1] == text[at + 1]);
    } else {
        assert(text.take(0).len() == 0);
    }
}

/// A text with a malformed pair in a prefix of even length spells nothing.
proof fn lemma_decoded_prefix(text: Seq<u8>, n: nat)
    requires
        n % 2 == 0,
        n <= text.len(),
        decoded(text.take(n as int)).is_none(),
    ensures
        decoded(text).is_none(),
    decreases text.len(),
{
    if text.len() < 2 {
        assert(text.take(n as int).len() < 2);
    } else {
        let at = text.len() - 2 - text.len() % 2;
        if n == at + 2 {
            let front = text.take(n as int);
            assert(front.take(front.len() - 2) =~= text.take(at));
            assert(front[at] == text[at] && front[at + 1] == text[at + 1]);
        } else {
            assert(n <= at);
            assert(text.take(at).take(n as int) =~= text.take(n as int));
            lemma_decoded_prefix(text.take(at), n);
        }
    }
}

} // verus!

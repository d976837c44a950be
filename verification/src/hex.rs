//! The hex-string front end: bytecode given as a bare hex string, decoded
//! through the binary codec.
//!
//! A hex string is pairs of hex digits, two per byte, no prefix and no
//! separators.  An odd length or a non-hex character fails the call.

use vstd::prelude::*;

use crate::codec::{spec_decode_permissive, spec_decode_strict, InstructionCodec};
use crate::opcode::{InstructionSequence, OpModel};
use vstd::string::StringSliceAdditionalSpecFns;

verus! {

/// A failure of bare hex-string conversion.
#[derive(Debug, PartialEq, Eq)]
pub enum HexError {
    /// The string has an odd number of characters.
    BadSize,
    /// The byte offset of the first non-hex character.
    BadHexAt(usize),
}

/// A failure of hex-string decoding: a malformed hex string, or, in strict
/// mode, an unknown opcode byte at its offset in the converted bytes.
#[derive(Debug, PartialEq, Eq)]
pub enum HexStrError {
    BadSize,
    BadHexAt(usize),
    BadInstruction(usize, u8),
}

/// A hex digit byte, either case.
pub open spec fn is_hex_byte(b: u8) -> bool {
    (48 <= b && b <= 57) || (97 <= b && b <= 102) || (65 <= b && b <= 70)
}

/// The value of a hex digit byte (zero on other bytes).
pub open spec fn hex_byte_val(b: u8) -> int {
    if 48 <= b && b <= 57 {
        b - 48
    } else if 97 <= b && b <= 102 {
        b - 87
    } else if 65 <= b && b <= 70 {
        b - 55
    } else {
        0
    }
}

/// The first non-hex byte at or after `i`.
pub open spec fn first_non_hex(bs: Seq<u8>, i: int) -> Option<int>
    decreases bs.len() - i,
{
    if i < 0 || i >= bs.len() {
        None
    } else if !is_hex_byte(bs[i]) {
        Some(i)
    } else {
        first_non_hex(bs, i + 1)
    }
}

/// The bytes a hex string of even length denotes, high digit first.
pub open spec fn bytes_of_hex(bs: Seq<u8>) -> Seq<u8> {
    Seq::new((bs.len() / 2) as nat, |i: int| (hex_byte_val(bs[2 * i]) * 16 + hex_byte_val(bs[2 * i + 1])) as u8)
}

/// Convert a bare hex string to bytes: `BadSize` on an odd length, else
/// `BadHexAt` with the offset of the first non-hex character, else the
/// denoted bytes, one per digit pair.
pub fn hex_to_bytes(s: &str) -> (r: Result<Vec<u8>, HexError>)
    ensures
        ({
            let bs = s.spec_bytes();
            match r {
                Ok(v) => bs.len() % 2 == 0 && first_non_hex(bs, 0) is None && v@ == bytes_of_hex(
                    bs,
                ),
                Err(HexError::BadSize) => bs.len() % 2 != 0,
                Err(HexError::BadHexAt(i)) => bs.len() % 2 == 0 && first_non_hex(bs, 0) == Some(
                    i as int,
                ),
            }
        }),
{
    let b = s.as_bytes();
    let ghost bs = s.spec_bytes();
    let n = b.len();
    if n % 2 != 0 {
        return Err(HexError::BadSize);
    }
    let mut out: Vec<u8> = Vec::new();
    let mut j: usize = 0;
    while 2 * j < n
        invariant
            bs == s.spec_bytes(),
            bs == b@,
            n == bs.len(),
            n % 2 == 0,
            2 * j <= n,
            first_non_hex(bs, 0) == first_non_hex(bs, 2 * j),
            out@.len() == j,
            forall|q: int| 0 <= q < j ==> out@[q] == bytes_of_hex(bs)[q],
        decreases n - 2 * j,
    {
        let lo_idx = 2 * j;
        let hi = b[lo_idx];
        let hv = match hex_byte_value(hi) {
            Some(x) => x,
            None => {
                return Err(HexError::BadHexAt(lo_idx));
            },
        };
        let lo = b[lo_idx + 1];
        let lv = match hex_byte_value(lo) {
            Some(x) => x,
            None => {
                proof {
                    assert(first_non_hex(bs, 2 * j) == first_non_hex(bs, 2 * j + 1));
                }
                return Err(HexError::BadHexAt(lo_idx + 1));
            },
        };
        out.push(hv * 16 + lv);
        proof {
            assert(first_non_hex(bs, 2 * j) == first_non_hex(bs, 2 * j + 1));
            assert(first_non_hex(bs, 2 * j + 1) == first_non_hex(bs, 2 * (j + 1)));
            assert(out@[j as int] == bytes_of_hex(bs)[j as int]);
        }
        j += 1;
    }
    proof {
        assert(out@ =~= bytes_of_hex(bs));
    }
    Ok(out)
}

/// The value of a hex digit byte, or nothing.
fn hex_byte_value(b: u8) -> (r: Option<u8>)
    ensures
        r is Some <==> is_hex_byte(b),
        r is Some ==> r->0 as int == hex_byte_val(b) && r->0 < 16,
{
    if 48 <= b && b <= 57 {
        Some(b - 48)
    } else if 97 <= b && b <= 102 {
        Some(b - 87)
    } else if 65 <= b && b <= 70 {
        Some(b - 55)
    } else {
        None
    }
}

impl<'a> InstructionCodec<'a> {
    /// Decode a bare hex string strictly: convert to bytes, then decode as
    /// `decode_strict` does, with the same failure conditions as both.
    pub fn decode_hex_strict(&self, s: &str) -> (r: Result<InstructionSequence, HexStrError>)
        ensures
            ({
                let bs = s.spec_bytes();
                match r {
                    Ok(prog) => bs.len() % 2 == 0 && first_non_hex(bs, 0) is None
                        && spec_decode_strict(self@, bytes_of_hex(bs)) == Ok::<
                        Seq<OpModel>,
                        (int, u8),
                    >(prog@),
                    Err(HexStrError::BadSize) => bs.len() % 2 != 0,
                    Err(HexStrError::BadHexAt(i)) => bs.len() % 2 == 0 && first_non_hex(bs, 0)
                        == Some(i as int),
                    Err(HexStrError::BadInstruction(off, v)) => bs.len() % 2 == 0 && first_non_hex(
                        bs,
                        0,
                    ) is None && spec_decode_strict(self@, bytes_of_hex(bs)) == Err::<
                        Seq<OpModel>,
                        (int, u8),
                    >((off as int, v)),
                }
            }),
    {
        let bytes = match hex_to_bytes(s) {
            Ok(v) => v,
            Err(HexError::BadSize) => {
                return Err(HexStrError::BadSize);
            },
            Err(HexError::BadHexAt(i)) => {
                return Err(HexStrError::BadHexAt(i));
            },
        };
        match self.decode_strict(bytes.as_slice()) {
            Ok(prog) => Ok(prog),
            Err(crate::codec::DecodeError::BadInstruction(off, v)) => Err(
                HexStrError::BadInstruction(off, v),
            ),
        }
    }

    /// Decode a bare hex string permissively: convert to bytes, then decode
    /// as `decode_permissive` does; only a malformed hex string fails.
    pub fn decode_hex_permissive(&self, s: &str) -> (r: Result<InstructionSequence, HexError>)
        ensures
            ({
                let bs = s.spec_bytes();
                match r {
                    Ok(prog) => bs.len() % 2 == 0 && first_non_hex(bs, 0) is None && prog@
                        == spec_decode_permissive(self@, bytes_of_hex(bs)),
                    Err(HexError::BadSize) => bs.len() % 2 != 0,
                    Err(HexError::BadHexAt(i)) => bs.len() % 2 == 0 && first_non_hex(bs, 0)
                        == Some(i as int),
                }
            }),
    {
        let bytes = match hex_to_bytes(s) {
            Ok(v) => v,
            Err(e) => {
                return Err(e);
            },
        };
        Ok(self.decode_permissive(bytes.as_slice()))
    }
}

} // verus!

//! Percent-decoding of file-scheme URIs from workspace-history records.
//!
//! A `%XX` triplet decodes to one byte; multi-byte UTF-8 characters arrive
//! as consecutive triplets.  A `%` not followed by two hex digits stands
//! for itself, and the up to two bytes after it are dropped.  If the
//! decoded bytes are not valid UTF-8 the input is returned unchanged.

use vstd::prelude::*;
use vstd::string::StrSliceExecFns;
use vstd::utf8::{decode_utf8, encode_utf8, valid_utf8};

verus! {

/// `b` is an ASCII hex digit.
pub open spec fn is_hex_digit(b: u8) -> bool {
    (48 <= b && b <= 57) || (97 <= b && b <= 102) || (65 <= b && b <= 70)
}

/// The numeric value of the hex digit `b`.
pub open spec fn hex_val(b: u8) -> u8
    recommends
        is_hex_digit(b),
{
    if 48 <= b && b <= 57 {
        (b - 48) as u8
    } else if 97 <= b && b <= 102 {
        (b - 97 + 10) as u8
    } else {
        (b - 65 + 10) as u8
    }
}

/// The percent-decoding of the byte sequence `s`.
pub open spec fn spec_percent_decode(s: Seq<u8>) -> Seq<u8>
    decreases s.len(),
{
    if s.len() == 0 {
        seq![]
    } else if s[0] == 37 {
        if s.len() >= 3 {
            if is_hex_digit(s[1]) && is_hex_digit(s[2]) {
                seq![(hex_val(s[1]) * 16 + hex_val(s[2])) as u8] + spec_percent_decode(s.skip(3))
            } else {
                seq![37u8] + spec_percent_decode(s.skip(3))
            }
        } else {
            seq![37u8]
        }
    } else {
        seq![s[0]] + spec_percent_decode(s.skip(1))
    }
}

/// The value of the hex digit `b`, or none if `b` is not a hex digit.
fn hex_digit_value(b: u8) -> (r: Option<u8>)
    ensures
        match r {
            Some(v) => is_hex_digit(b) && v == hex_val(b) && v < 16,
            None => !is_hex_digit(b),
        },
{
    if 48 <= b && b <= 57 {
        Some(b - 48)
    } else if 97 <= b && b <= 102 {
        Some(b - 97 + 10)
    } else if 65 <= b && b <= 70 {
        Some(b - 65 + 10)
    } else {
        None
    }
}

/// Percent-decode a byte sequence.
pub fn percent_decode_bytes(input: &Vec<u8>) -> (r: Vec<u8>)
    ensures
        r@ == spec_percent_decode(input@),
{
    let n = input.len();
    let mut out: Vec<u8> = Vec::new();
    let mut i: usize = 0;
    proof {
        assert(input@.skip(0) =~= input@);
    }
    while i < n
        invariant
            n == input@.len(),
            i <= n,
            spec_percent_decode(input@) == out@ + spec_percent_decode(input@.skip(i as int)),
        decreases n - i,
    {
        let ghost rest = input@.skip(i as int);
        proof {
            assert(rest.len() == n - i);
            assert(rest[0] == input@[i as int]);
        }
        let b = input[i];
        if b == 37 {
            if n - i > 2 {
                proof {
                    assert(rest[1] == input@[i as int + 1]);
                    assert(rest[2] == input@[i as int + 2]);
                }
                let h = hex_digit_value(input[i + 1]);
                let l = hex_digit_value(input[i + 2]);
                match (h, l) {
                    (Some(hv), Some(lv)) => {
                        out.push(hv * 16 + lv);
                    },
                    _ => {
                        out.push(37);
                    },
                }
                proof {
                    assert(input@.skip(i as int).skip(3) =~= input@.skip(i as int + 3));
                }
                i = i + 3;
            } else {
                out.push(37);
                proof {
                    assert(spec_percent_decode(rest) == seq![37u8]);
                    assert(spec_percent_decode(input@.skip(n as int)) =~= Seq::<u8>::empty());
                    assert(out@ + spec_percent_decode(input@.skip(n as int)) =~= out@);
                }
                i = n;
            }
        } else {
            out.push(b);
            proof {
                assert(input@.skip(i as int).skip(1) =~= input@.skip(i as int + 1));
            }
            i = i + 1;
        }
        proof {
            assert(spec_percent_decode(input@) =~= out@ + spec_percent_decode(
                input@.skip(i as int),
            ));
        }
    }
    proof {
        assert(input@.skip(n as int) =~= Seq::<u8>::empty());
        assert(out@ =~= spec_percent_decode(input@));
    }
    out
}

/// Relies on `String::from_utf8`: it returns `Ok` exactly on valid UTF-8
/// input, yielding the string those bytes encode.
#[verifier::external_body]
fn string_from_utf8(v: Vec<u8>) -> (r: Option<String>)
    ensures
        r is Some <==> valid_utf8(v@),
        r matches Some(s) ==> s@ == decode_utf8(v@),
{
    String::from_utf8(v).ok()
}

/// Percent-decode a string (`%XX` triplets to bytes, then UTF-8).  If the
/// decoded bytes are not valid UTF-8, the input is returned unchanged.
pub fn percent_decode(input: &str) -> (r: String)
    ensures
        valid_utf8(spec_percent_decode(encode_utf8(input@))) ==> r@ == decode_utf8(
            spec_percent_decode(encode_utf8(input@)),
        ),
        !valid_utf8(spec_percent_decode(encode_utf8(input@))) ==> r@ == input@,
{
    let bytes = input.as_bytes_vec();
    let decoded = percent_decode_bytes(&bytes);
    match string_from_utf8(decoded) {
        Some(s) => s,
        None => input.to_owned(),
    }
}

} // verus!

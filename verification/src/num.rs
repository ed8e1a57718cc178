//! Parsing of numeric command arguments: decimal, or hexadecimal when
//! prefixed with `0x`.

use vstd::prelude::*;
use vstd::string::StrSliceExecFns;

verus! {

/// Why a numeric argument was rejected.
#[derive(Clone, Copy, Debug, PartialEq, Eq, Structural)]
pub enum ParseError {
    /// There were no digits to parse.
    Empty,
    /// A character was not a digit of the expected base.
    InvalidDigit,
    /// The value does not fit in 64 bits.
    Overflow,
}

/// The numeric value of one digit character, either case accepted for hex;
/// a value of at least 16 marks a character that is no digit at all.
pub open spec fn digit_val(c: char) -> nat {
    if 0x30 <= c as u32 && c as u32 <= 0x39 {
        (c as u32 - 0x30) as nat
    } else if 0x61 <= c as u32 && c as u32 <= 0x66 {
        (c as u32 - 0x61 + 10) as nat
    } else if 0x41 <= c as u32 && c as u32 <= 0x46 {
        (c as u32 - 0x41 + 10) as nat
    } else {
        99
    }
}

/// Every character of `s` is a digit of base `radix`.
pub open spec fn all_digits(s: Seq<char>, radix: nat) -> bool {
    forall|i: int| 0 <= i < s.len() ==> digit_val(s[i]) < radix
}

/// The value of `s` read as a base-`radix` numeral, most significant digit
/// first.
pub open spec fn num_val(s: Seq<char>, radix: nat) -> nat
    decreases s.len(),
{
    if s.len() == 0 {
        0
    } else {
        num_val(s.drop_last(), radix) * radix + digit_val(s.last())
    }
}

/// The digits of the argument and their base: everything after a `0x`
/// prefix read as hexadecimal, the whole string read as decimal otherwise.
pub open spec fn numeral_body(s: Seq<char>) -> (Seq<char>, nat) {
    if s.len() >= 2 && s[0] == '0' && s[1] == 'x' {
        (s.skip(2), 16)
    } else {
        (s, 10)
    }
}

/// A longer prefix of a numeral is worth at least as much as a shorter one.
proof fn lemma_num_val_prefix_le(s: Seq<char>, i: int, radix: nat)
    requires
        0 <= i <= s.len(),
        radix >= 1,
    ensures
        num_val(s.take(i), radix) <= num_val(s, radix),
    decreases s.len() - i,
{
    if i == s.len() {
        assert(s.take(i) =~= s);
    } else {
        lemma_num_val_prefix_le(s, i + 1, radix);
        assert(s.take(i + 1).drop_last() =~= s.take(i));
        let v = num_val(s.take(i), radix);
        assert(v * radix >= v) by (nonlinear_arith)
            requires
                radix >= 1,
                v >= 0,
        ;
    }
}

fn char_digit(c: char) -> (d: u8)
    ensures
        d as nat == digit_val(c),
{
    let u = c as u32;
    if 0x30 <= u && u <= 0x39 {
        (u - 0x30) as u8
    } else if 0x61 <= u && u <= 0x66 {
        (u - 0x61 + 10) as u8
    } else if 0x41 <= u && u <= 0x46 {
        (u - 0x41 + 10) as u8
    } else {
        99
    }
}

/// Parses a string to a `u64`. A string prefixed with `0x` is read as
/// hexadecimal, any other as decimal. Returns exactly which way the string
/// fails when it is no numeral: no digits at all, a character that is not a
/// digit of the base, or a value over 64 bits.
pub fn as_u64(s: &String) -> (r: Result<u64, ParseError>)
    ensures
        ({
            let (body, radix) = numeral_body(s@);
            &&& (r matches Ok(v) ==> v == num_val(body, radix))
            &&& ((r matches Ok(v)) <==> body.len() > 0 && all_digits(body, radix) && num_val(
                body,
                radix,
            ) <= u64::MAX)
            &&& (r == Err::<u64, ParseError>(ParseError::Empty) <==> body.len() == 0)
            &&& (r == Err::<u64, ParseError>(ParseError::InvalidDigit) <==> body.len() > 0
                && !all_digits(body, radix))
            &&& (r == Err::<u64, ParseError>(ParseError::Overflow) <==> body.len() > 0
                && all_digits(body, radix) && num_val(body, radix) > u64::MAX)
        }),
{
    let len = s.as_str().unicode_len();
    let hex_prefix = len >= 2 && s.as_str().get_char(0) == '0' && s.as_str().get_char(1) == 'x';
    let start: usize = if hex_prefix {
        2
    } else {
        0
    };
    let radix: u64 = if hex_prefix {
        16
    } else {
        10
    };
    let ghost body = numeral_body(s@).0;
    proof {
        assert(body =~= s@.subrange(start as int, len as int));
    }
    if start >= len {
        return Err(ParseError::Empty);
    }
    let mut i: usize = start;
    while i < len
        invariant
            start <= i <= len == s@.len(),
            body == numeral_body(s@).0,
            radix == numeral_body(s@).1,
            start == s@.len() - body.len(),
            body =~= s@.subrange(start as int, len as int),
            forall|j: int| start <= j < i ==> digit_val(s@[j]) < radix,
        decreases len - i,
    {
        let c = s.as_str().get_char(i);
        let d = char_digit(c);
        if d as u64 >= radix {
            proof {
                assert(body[i - start] == s@[i as int]);
                assert(digit_val(body[i - start]) >= radix);
                assert(!all_digits(body, radix as nat));
            }
            return Err(ParseError::InvalidDigit);
        }
        i = i + 1;
    }
    proof {
        assert(forall|j: int| 0 <= j < body.len() ==> digit_val(body[j]) < radix);
    }
    let mut acc: u64 = 0;
    i = start;
    proof {
        assert(s@.subrange(start as int, start as int) =~= body.take(0));
    }
    while i < len
        invariant
            start <= i <= len == s@.len(),
            body == numeral_body(s@).0,
            radix == numeral_body(s@).1,
            1 <= radix,
            start == s@.len() - body.len(),
            body =~= s@.subrange(start as int, len as int),
            all_digits(body, radix as nat),
            acc == num_val(body.take(i - start), radix as nat),
        decreases len - i,
    {
        let c = s.as_str().get_char(i);
        let d = char_digit(c);
        proof {
            assert(body.take(i + 1 - start).drop_last() =~= body.take(i - start));
            assert(body.take(i + 1 - start).last() == s@[i as int]);
        }
        let m = match acc.checked_mul(radix) {
            Some(m) => m,
            None => {
                proof {
                    assert(num_val(body.take(i + 1 - start), radix as nat) > u64::MAX) by (
                    nonlinear_arith)
                        requires
                            num_val(body.take(i + 1 - start), radix as nat) == num_val(
                                body.take(i - start),
                                radix as nat,
                            ) * radix + digit_val(body.take(i + 1 - start).last()),
                            num_val(body.take(i - start), radix as nat) * radix > u64::MAX,
                    ;
                    lemma_num_val_prefix_le(body, i + 1 - start, radix as nat);
                    assert(num_val(body, radix as nat) > u64::MAX);
                }
                return Err(ParseError::Overflow);
            },
        };
        let v = match m.checked_add(d as u64) {
            Some(v) => v,
            None => {
                proof {
                    assert(num_val(body.take(i + 1 - start), radix as nat) == acc * radix
                        + digit_val(body.take(i + 1 - start).last()));
                    assert(num_val(body.take(i + 1 - start), radix as nat) > u64::MAX);
                    lemma_num_val_prefix_le(body, i + 1 - start, radix as nat);
                    assert(num_val(body, radix as nat) > u64::MAX);
                }
                return Err(ParseError::Overflow);
            },
        };
        acc = v;
        i = i + 1;
    }
    proof {
        assert(body.take(len - start) =~= body);
    }
    Ok(acc)
}

} // verus!

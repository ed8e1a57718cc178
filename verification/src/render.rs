//! Hexadecimal and printable-ASCII rendering of byte sequences, and the
//! fixed-width line layout built from them.

use vstd::prelude::*;

verus! {

/// The lowercase hexadecimal digit for a value below 16.
pub open spec fn hex_digit_char(d: u8) -> char
    recommends
        d < 16,
{
    if d < 10 {
        (d + 0x30) as char
    } else {
        (d + 0x57) as char
    }
}

/// Two lowercase hex digits for one byte, high nibble first.
pub open spec fn hex_of_byte(b: u8) -> Seq<char> {
    seq![hex_digit_char(b / 16), hex_digit_char(b % 16)]
}

/// The concatenation of the two-digit hex renderings of each byte.
pub open spec fn spec_hex(s: Seq<u8>) -> Seq<char>
    decreases s.len(),
{
    if s.len() == 0 {
        Seq::empty()
    } else {
        hex_of_byte(s[0]) + spec_hex(s.skip(1))
    }
}

/// The printable rendering of one byte: itself when in the printable range,
/// `.` otherwise.
pub open spec fn ascii_char(b: u8) -> char {
    if 0x20 <= b && b < 0x7f {
        b as char
    } else {
        '.'
    }
}

/// One printable character per byte.
pub open spec fn spec_ascii(s: Seq<u8>) -> Seq<char> {
    Seq::new(s.len(), |i: int| ascii_char(s[i]))
}

/// Relies on `String::push` from std: appends exactly the given character
/// to the end of the string.
#[verifier::external_body]
pub(crate) fn push_char(s: &mut String, c: char)
    ensures
        final(s)@ == old(s)@ + seq![c],
{
    s.push(c);
}

/// The lowercase hex digit for `d < 16`, as an executable step.
fn hex_digit(d: u8) -> (c: char)
    requires
        d < 16,
    ensures
        c == hex_digit_char(d),
{
    if d < 10 {
        (d + 0x30) as char
    } else {
        (d + 0x57) as char
    }
}

proof fn lemma_spec_hex_concat(a: Seq<u8>, b: Seq<u8>)
    ensures
        spec_hex(a + b) == spec_hex(a) + spec_hex(b),
    decreases a.len(),
{
    if a.len() == 0 {
        assert(a + b =~= b);
        assert(spec_hex(a) + spec_hex(b) =~= spec_hex(b));
    } else {
        lemma_spec_hex_concat(a.skip(1), b);
        assert((a + b).skip(1) =~= a.skip(1) + b);
        assert(spec_hex(a + b) =~= spec_hex(a) + spec_hex(b));
    }
}

/// Converts a slice of bytes to a string of two-digit lowercase hex values,
/// one pair per byte, with no separators.
pub fn word_as_hex(word: &[u8]) -> (r: String)
    ensures
        r@ == spec_hex(word@),
{
    let mut r = String::new();
    let mut i: usize = 0;
    while i < word.len()
        invariant
            0 <= i <= word@.len(),
            r@ == spec_hex(word@.take(i as int)),
        decreases word@.len() - i,
    {
        let b = word[i];
        push_char(&mut r, hex_digit(b / 16));
        push_char(&mut r, hex_digit(b % 16));
        proof {
            lemma_spec_hex_concat(word@.take(i as int), seq![word@[i as int]]);
            assert(word@.take(i + 1) =~= word@.take(i as int) + seq![word@[i as int]]);
            assert(seq![word@[i as int]].skip(1) =~= Seq::<u8>::empty());
            assert(spec_hex(Seq::<u8>::empty()) =~= Seq::<char>::empty());
            assert(spec_hex(seq![word@[i as int]]) =~= hex_of_byte(word@[i as int]));
            assert(r@ =~= spec_hex(word@.take(i + 1)));
        }
        i = i + 1;
    }
    proof {
        assert(word@.take(word@.len() as int) =~= word@);
    }
    r
}

/// Converts a slice of bytes to a printable string, one character per byte,
/// replacing non-printable bytes with `.`.
pub fn word_as_ascii(word: &[u8]) -> (r: String)
    ensures
        r@ == spec_ascii(word@),
{
    let mut r = String::new();
    let mut i: usize = 0;
    while i < word.len()
        invariant
            0 <= i <= word@.len(),
            r@ == spec_ascii(word@.take(i as int)),
        decreases word@.len() - i,
    {
        let b = word[i];
        if 0x20 <= b && b < 0x7f {
            push_char(&mut r, b as char);
        } else {
            push_char(&mut r, '.');
        }
        proof {
            assert(r@ =~= spec_ascii(word@.take(i + 1)));
        }
        i = i + 1;
    }
    proof {
        assert(word@.take(word@.len() as int) =~= word@);
    }
    r
}

} // verus!

//! One rendered output row: hex field grouped by word size and padded to a
//! fixed width, printable column, and an eight-digit hexadecimal offset.

use vstd::prelude::*;
use vstd::string::StrSliceExecFns;
use vstd::string::StringExecFns;
use crate::render::{spec_hex, spec_ascii, hex_digit_char, word_as_hex, word_as_ascii, push_char};

verus! {

/// The hex field of a row: the bytes partitioned into consecutive groups of
/// `ws` bytes (the final group may be shorter), each group rendered as its
/// bytes' hex digits and followed by a single space, the trailing one
/// included.
pub open spec fn spec_hex_field(s: Seq<u8>, ws: int) -> Seq<char>
    recommends
        ws >= 1,
    decreases s.len(),
{
    if ws < 1 || s.len() == 0 {
        Seq::empty()
    } else if s.len() <= ws {
        spec_hex(s) + seq![' ']
    } else {
        spec_hex(s.take(ws)) + seq![' '] + spec_hex_field(s.skip(ws), ws)
    }
}

/// `n` copies of the character `c` (empty when `n <= 0`).
pub open spec fn repeat_char(c: char, n: int) -> Seq<char> {
    if n <= 0 {
        Seq::empty()
    } else {
        Seq::new(n as nat, |i: int| c)
    }
}

/// `s` left-justified in a field of minimum width `w`: padded with trailing
/// spaces when shorter, kept whole when already as wide.
pub open spec fn pad_to(s: Seq<char>, w: int) -> Seq<char> {
    s + repeat_char(' ', w - s.len())
}

/// The lowercase hex digits of `v`, most significant first, no leading
/// zeros; empty for zero.
pub open spec fn hex_digits(v: nat) -> Seq<char>
    decreases v,
{
    if v == 0 {
        Seq::empty()
    } else {
        hex_digits(v / 16) + seq![hex_digit_char((v % 16) as u8)]
    }
}

/// `v` in lowercase hex, zero-padded on the left to at least eight digits.
pub open spec fn spec_offset_hex(v: nat) -> Seq<char> {
    let d = if v == 0 {
        seq!['0']
    } else {
        hex_digits(v)
    };
    repeat_char('0', 8 - d.len()) + d
}

/// Renders `v` as lowercase hexadecimal, zero-padded to eight digits.
pub fn offset_hex(v: usize) -> (r: String)
    ensures
        r@ == spec_offset_hex(v as nat),
{
    let mut digits: Vec<char> = Vec::new();
    let mut x: usize = v;
    proof {
        assert(digits@.reverse() =~= Seq::<char>::empty());
        assert(hex_digits(v as nat) =~= hex_digits(x as nat) + digits@.reverse());
    }
    while x > 0
        invariant
            hex_digits(v as nat) == hex_digits(x as nat) + digits@.reverse(),
        decreases x,
    {
        let d: u8 = (x % 16) as u8;
        let c = if d < 10 {
            (d + 0x30) as char
        } else {
            (d + 0x57) as char
        };
        proof {
            assert(digits@.push(c).reverse() =~= seq![c] + digits@.reverse());
            assert(hex_digits(x as nat) =~= hex_digits(x as nat / 16) + seq![c]);
            assert(hex_digits(x as nat / 16) + (seq![c] + digits@.reverse()) =~= (hex_digits(
                x as nat / 16,
            ) + seq![c]) + digits@.reverse());
        }
        digits.push(c);
        x = x / 16;
    }
    if digits.len() == 0 {
        digits.push('0');
        proof {
            assert(digits@.reverse() =~= seq!['0']);
        }
    }
    let ghost base: Seq<char> = digits@.reverse();
    proof {
        assert(base == if v == 0 {
            seq!['0']
        } else {
            hex_digits(v as nat)
        });
    }
    proof {
        assert(repeat_char('0', 0) + base =~= base);
    }
    while digits.len() < 8
        invariant
            digits@.len() >= base.len(),
            digits@.len() <= 8 || digits@.len() == base.len(),
            digits@.reverse() == repeat_char('0', digits@.len() - base.len()) + base,
        decreases 8 - digits@.len(),
    {
        proof {
            assert(digits@.push('0').reverse() =~= seq!['0'] + digits@.reverse());
            assert(seq!['0'] + (repeat_char('0', digits@.len() - base.len()) + base)
                =~= repeat_char('0', digits@.len() + 1 - base.len()) + base);
        }
        digits.push('0');
    }
    let mut r = String::new();
    let mut k: usize = 0;
    while k < digits.len()
        invariant
            0 <= k <= digits@.len(),
            r@ == digits@.reverse().take(k as int),
        decreases digits@.len() - k,
    {
        push_char(&mut r, digits[digits.len() - 1 - k]);
        proof {
            assert(r@ =~= digits@.reverse().take(k + 1));
        }
        k = k + 1;
    }
    proof {
        assert(digits@.reverse().take(digits@.len() as int) =~= digits@.reverse());
        if base.len() >= 8 {
            assert(digits@.len() == base.len());
            assert(repeat_char('0', 0) + base =~= base);
            assert(repeat_char('0', 8 - base.len()) + base =~= base);
        } else {
            assert(digits@.len() == 8);
        }
        assert(r@ =~= spec_offset_hex(v as nat));
    }
    r
}

/// Appends `count` spaces.
fn push_spaces(s: &mut String, count: usize)
    ensures
        final(s)@ == old(s)@ + repeat_char(' ', count as int),
{
    let mut i: usize = 0;
    proof {
        assert(old(s)@ + repeat_char(' ', 0) =~= old(s)@);
    }
    while i < count
        invariant
            0 <= i <= count,
            s@ == old(s)@ + repeat_char(' ', i as int),
        decreases count - i,
    {
        push_char(s, ' ');
        proof {
            assert(repeat_char(' ', i + 1) =~= repeat_char(' ', i as int) + seq![' ']);
            assert(old(s)@ + repeat_char(' ', i + 1) =~= (old(s)@ + repeat_char(' ', i as int))
                + seq![' ']);
        }
        i = i + 1;
    }
}

/// One output row, held as its already rendered parts: the hex field (not
/// yet padded), the printable column, the offset of the row's first byte,
/// and the fixed width the hex field is padded to.
pub struct Line {
    pub ascii: String,
    pub hex: String,
    pub start_offset: usize,
    pub hex_length: usize,
}

/// The full text of a row: the offset as eight hex digits, two spaces, the
/// hex field padded with trailing spaces to `hexlen`, one space, and the
/// printable column between pipes.
pub open spec fn spec_line_text(
    start: nat,
    hex: Seq<char>,
    ascii: Seq<char>,
    hexlen: int,
) -> Seq<char> {
    spec_offset_hex(start) + seq![' ', ' '] + pad_to(hex, hexlen) + seq![' ', '|'] + ascii
        + seq!['|']
}

impl Line {
    /// Renders the row in its final shape.
    pub fn render(&self) -> (r: String)
        ensures
            r@ == spec_line_text(
                self.start_offset as nat,
                self.hex@,
                self.ascii@,
                self.hex_length as int,
            ),
    {
        let mut r = offset_hex(self.start_offset);
        r.append("  ");
        r.append(self.hex.as_str());
        let len: usize = self.hex.as_str().unicode_len();
        let pad: usize = if len < self.hex_length {
            self.hex_length - len
        } else {
            0
        };
        push_spaces(&mut r, pad);
        r.append(" |");
        r.append(self.ascii.as_str());
        r.append("|");
        proof {
            reveal_strlit("  ");
            reveal_strlit(" |");
            reveal_strlit("|");
            assert("  "@ =~= seq![' ', ' ']);
            assert(" |"@ =~= seq![' ', '|']);
            assert("|"@ =~= seq!['|']);
            assert(repeat_char(' ', pad as int) == repeat_char(
                ' ',
                self.hex_length - self.hex@.len(),
            ));
            assert(r@ =~= spec_line_text(
                self.start_offset as nat,
                self.hex@,
                self.ascii@,
                self.hex_length as int,
            ));
        }
        r
    }
}

/// Builds a row from the first `n` bytes of `buf`: the hex field groups the
/// bytes into words of `word_size` bytes, each followed by one space; the
/// printable column has one character per byte; the row starts at
/// `end_offset - n`.
pub fn build_line(
    end_offset: usize,
    buf: &[u8],
    n: usize,
    word_size: usize,
    hex_length: usize,
) -> (line: Line)
    requires
        n <= buf@.len(),
        n <= end_offset,
        word_size >= 1,
    ensures
        line.hex@ == spec_hex_field(buf@.take(n as int), word_size as int),
        line.ascii@ == spec_ascii(buf@.take(n as int)),
        line.start_offset == end_offset - n,
        line.hex_length == hex_length,
{
    let mut hex = String::new();
    let mut j: usize = 0;
    proof {
        assert(buf@.subrange(0, n as int) =~= buf@.take(n as int));
    }
    while j < n
        invariant
            0 <= j <= n <= buf@.len(),
            word_size >= 1,
            hex@ + spec_hex_field(buf@.subrange(j as int, n as int), word_size as int)
                == spec_hex_field(buf@.take(n as int), word_size as int),
        decreases n - j,
    {
        let end = if n - j <= word_size {
            n
        } else {
            j + word_size
        };
        let group = word_as_hex(&buf[j..end]);
        hex.append(group.as_str());
        push_char(&mut hex, ' ');
        proof {
            let rem = buf@.subrange(j as int, n as int);
            if n - j <= word_size {
                assert(rem == buf@.subrange(j as int, end as int));
                assert(spec_hex_field(rem, word_size as int) == spec_hex(rem) + seq![' ']);
                assert(buf@.subrange(end as int, n as int).len() == 0);
                assert(spec_hex_field(
                    buf@.subrange(end as int, n as int),
                    word_size as int,
                ) =~= Seq::<char>::empty());
                assert((hex@ + spec_hex(rem)) + seq![' '] =~= hex@ + (spec_hex(rem) + seq![' ']));
                assert(((hex@ + spec_hex(rem)) + seq![' ']) + spec_hex_field(
                    buf@.subrange(end as int, n as int),
                    word_size as int,
                ) =~= (hex@ + spec_hex(rem)) + seq![' ']);
            } else {
                assert(rem.take(word_size as int) =~= buf@.subrange(j as int, end as int));
                assert(rem.skip(word_size as int) =~= buf@.subrange(end as int, n as int));
                assert(spec_hex_field(rem, word_size as int) == spec_hex(
                    buf@.subrange(j as int, end as int),
                ) + seq![' '] + spec_hex_field(
                    buf@.subrange(end as int, n as int),
                    word_size as int,
                ));
                assert(((hex@ + spec_hex(buf@.subrange(j as int, end as int))) + seq![' '])
                    + spec_hex_field(buf@.subrange(end as int, n as int), word_size as int) =~= hex@
                    + ((spec_hex(buf@.subrange(j as int, end as int)) + seq![' ']) + spec_hex_field(
                    buf@.subrange(end as int, n as int),
                    word_size as int,
                )));
            }
        }
        j = end;
    }
    proof {
        assert(buf@.subrange(n as int, n as int).len() == 0);
        assert(spec_hex_field(buf@.subrange(n as int, n as int), word_size as int) =~= Seq::<
            char,
        >::empty());
        assert(hex@ =~= spec_hex_field(buf@.take(n as int), word_size as int));
    }
    let ascii = word_as_ascii(&buf[0..n]);
    proof {
        assert(buf@.subrange(0, n as int) =~= buf@.take(n as int));
    }
    Line { ascii, hex, start_offset: end_offset - n, hex_length }
}

} // verus!

//! Laws that hold of every run of the dump engine, stated over the
//! mathematical models and proved once and for all.

use vstd::prelude::*;
use vstd::arithmetic::div_mod::{
    lemma_basic_div, lemma_div_is_ordered, lemma_div_multiples_vanish_fancy, lemma_div_plus_one,
    lemma_fundamental_div_mod,
};
use crate::engine::{Dumper, padded_window, run_end, spec_hex_len, spec_run, windows_of, zero_window};
use crate::line::{pad_to, spec_hex_field};
use crate::render::{spec_hex, spec_ascii, ascii_char, hex_of_byte, hex_digit_char};
use crate::num::digit_val;
use crate::all_zero_seq;
use crate::LINE_BYTES;

verus! {

/// The bytes read back out of a hex field written with word size one: each
/// byte stands as two digits and a space, three characters in all.
pub open spec fn bytes_of_hex_field1(s: Seq<char>) -> Seq<u8>
    decreases s.len(),
{
    if s.len() < 3 {
        Seq::empty()
    } else {
        seq![(digit_val(s[0]) * 16 + digit_val(s[1])) as u8] + bytes_of_hex_field1(s.skip(3))
    }
}

proof fn lemma_digit_round_trip(d: u8)
    requires
        d < 16,
    ensures
        digit_val(hex_digit_char(d)) == d,
{
}

/// Law: a data line reconstructs its window exactly. With word size one the
/// hex field reads back as precisely the bytes it was written from — the
/// byte count and every byte value — and the printable column is a function
/// of those same bytes, so the two fields agree on every byte.
pub proof fn lemma_hex_field_round_trip(b: Seq<u8>)
    ensures
        bytes_of_hex_field1(spec_hex_field(b, 1)) == b,
        spec_ascii(b).len() == b.len(),
        forall|i: int| 0 <= i < b.len() ==> spec_ascii(b)[i] == ascii_char(b[i]),
    decreases b.len(),
{
    if b.len() == 0 {
        assert(bytes_of_hex_field1(spec_hex_field(b, 1)) =~= b);
    } else {
        let s = spec_hex_field(b, 1);
        lemma_digit_round_trip(b[0] / 16);
        lemma_digit_round_trip(b[0] % 16);
        assert(b[0] / 16 * 16 + b[0] % 16 == b[0]) by (nonlinear_arith);
        if b.len() == 1 {
            assert(b.skip(1) =~= Seq::<u8>::empty());
            assert(spec_hex(b.skip(1)) =~= Seq::<char>::empty());
            assert(spec_hex(b) =~= hex_of_byte(b[0]));
            assert(s =~= seq![hex_digit_char(b[0] / 16), hex_digit_char(b[0] % 16), ' ']);
            assert(s.skip(3) =~= Seq::<char>::empty());
            assert(bytes_of_hex_field1(s.skip(3)) =~= Seq::<u8>::empty());
            assert(digit_val(s[0]) == b[0] / 16 && digit_val(s[1]) == b[0] % 16);
            assert(bytes_of_hex_field1(s) =~= seq![b[0]]);
            assert(bytes_of_hex_field1(s) =~= b);
        } else {
            lemma_hex_field_round_trip(b.skip(1));
            assert(b.take(1).skip(1) =~= Seq::<u8>::empty());
            assert(spec_hex(b.take(1).skip(1)) =~= Seq::<char>::empty());
            assert(spec_hex(b.take(1)) =~= hex_of_byte(b[0]));
            assert(s =~= seq![hex_digit_char(b[0] / 16), hex_digit_char(b[0] % 16), ' ']
                + spec_hex_field(b.skip(1), 1));
            assert(s.skip(3) =~= spec_hex_field(b.skip(1), 1));
            assert(digit_val(s[0]) == b[0] / 16 && digit_val(s[1]) == b[0] % 16);
            assert(bytes_of_hex_field1(s) =~= seq![b[0]] + b.skip(1));
            assert(bytes_of_hex_field1(s) =~= b);
        }
    }
}

/// Law: a suppressed window is full-width and all zero, so its content is
/// known even though no line is emitted; suppression still advances the
/// offset by a full row.
pub proof fn lemma_elided_window_known(d: Dumper, data: Seq<u8>, n_read: nat)
    requires
        d.wf(),
        n_read <= data.len(),
        d.offset + n_read <= usize::MAX,
    ensures
        ({
            let (d2, lines, stop) = d.spec_feed(data, n_read);
            lines.len() == 0 && !stop ==> {
                &&& d.effective_n(n_read) == LINE_BYTES
                &&& all_zero_seq(data.take(LINE_BYTES as int))
                &&& d2.offset == d.offset + LINE_BYTES
            }
        }),
{
}

proof fn lemma_spec_hex_len(s: Seq<u8>)
    ensures
        spec_hex(s).len() == 2 * s.len(),
    decreases s.len(),
{
    if s.len() > 0 {
        lemma_spec_hex_len(s.skip(1));
    }
}

/// The length of a hex field: two digits per byte plus one separator per
/// word group, the last group counted even when partial.
pub proof fn lemma_hex_field_len(s: Seq<u8>, ws: int)
    requires
        ws >= 1,
    ensures
        spec_hex_field(s, ws).len() == 2 * s.len() + (s.len() + ws - 1) / ws,
    decreases s.len(),
{
    if s.len() == 0 {
        lemma_basic_div(ws - 1, ws);
    } else if s.len() <= ws {
        lemma_spec_hex_len(s);
        lemma_div_multiples_vanish_fancy(1, s.len() - 1, ws);
        assert(ws * 1 + (s.len() - 1) == s.len() + ws - 1);
    } else {
        lemma_hex_field_len(s.skip(ws), ws);
        lemma_spec_hex_len(s.take(ws));
        lemma_div_plus_one(s.len() - 1, ws);
        assert(spec_hex_field(s, ws).len() == 2 * ws + 1 + 2 * (s.len() - ws) + (s.len() - ws + ws
            - 1) / ws);
    }
}

/// Law: the hex-field width is constant across every data line of a run.
/// For any window of at most a full row, under a word size that divides the
/// row width, the padded hex field is exactly the configured width —
/// partial trailing windows render shorter content but the same field
/// width.
pub proof fn lemma_hex_field_width_constant(s: Seq<u8>, ws: int)
    requires
        1 <= ws <= LINE_BYTES,
        LINE_BYTES as int % ws == 0,
        s.len() <= LINE_BYTES,
    ensures
        pad_to(spec_hex_field(s, ws), spec_hex_len(ws)).len() == spec_hex_len(ws),
{
    let k = LINE_BYTES as int / ws;
    lemma_fundamental_div_mod(LINE_BYTES as int, ws);
    assert(ws * k == LINE_BYTES);
    lemma_hex_field_len(s, ws);
    lemma_div_is_ordered(s.len() + ws - 1, LINE_BYTES + ws - 1, ws);
    lemma_div_multiples_vanish_fancy(k, ws - 1, ws);
    assert(ws * k + (ws - 1) == LINE_BYTES + ws - 1);
    assert((s.len() + ws - 1) / ws <= k);
    assert(spec_hex_field(s, ws).len() <= 2 * LINE_BYTES + k);
    assert(spec_hex_len(ws) == 2 * LINE_BYTES + k) by (nonlinear_arith)
        requires
            spec_hex_len(ws) == ws * 2 * k + k,
            ws * k == LINE_BYTES,
    ;
}

/// Law: a run is deterministic. The output is a function of the starting
/// state — configuration and cursor — and the byte stream alone, so running
/// twice over the same file with the same arguments emits identical text.
pub proof fn lemma_run_deterministic(d1: Dumper, d2: Dumper, windows: Seq<(Seq<u8>, nat)>)
    requires
        d1 == d2,
    ensures
        spec_run(d1, windows) == spec_run(d2, windows),
{
}

/// Law: no byte goes missing. A run without a limit over a whole byte
/// stream ends with its offset advanced by exactly the stream's length:
/// every byte was consumed by some window, rendered or suppressed, and
/// counted once.
pub proof fn lemma_run_consumes_stream(d: Dumper, data: Seq<u8>)
    requires
        d.wf(),
        d.limit == 0,
        d.offset + data.len() <= usize::MAX,
    ensures
        run_end(d, windows_of(data)).offset == d.offset + data.len(),
    decreases data.len(),
{
    let w = windows_of(data);
    if data.len() >= LINE_BYTES {
        let (d2, lines, stop) = d.spec_feed(data.take(LINE_BYTES as int), LINE_BYTES as nat);
        assert(!stop);
        assert(d2.wf());
        lemma_run_consumes_stream(d2, data.skip(LINE_BYTES as int));
        assert(w.skip(1) =~= windows_of(data.skip(LINE_BYTES as int)));
    } else if data.len() > 0 {
        assert(w[0] == (padded_window(data), data.len()));
        let (d2, lines, stop) = d.spec_feed(padded_window(data), data.len());
        assert(!stop);
        let rest = w.skip(1);
        assert(rest =~= seq![(zero_window(), 0nat)]);
        let (d3, lines3, stop3) = d2.spec_feed(zero_window(), 0);
        assert(stop3);
        assert(d3.offset == d2.offset);
        assert(run_end(d2, rest) == d3);
        assert(run_end(d, w) == run_end(d2, rest));
    } else {
        let (d2, lines, stop) = d.spec_feed(zero_window(), 0);
        assert(stop);
        assert(d2.offset == d.offset);
    }
}

/// Law: offsets are monotone. One step advances the offset by exactly the
/// count of valid bytes it consumed, and a rendered data line starts at the
/// offset the engine held before the step; hence over two consecutive
/// steps, the second data line's starting offset exceeds the first's by
/// exactly the first window's byte count.
pub proof fn lemma_offset_monotonic(d: Dumper, w1: Seq<u8>, n1: nat, w2: Seq<u8>, n2: nat)
    requires
        d.wf(),
        !(n1 == 0 && d.skipped_lines == 0),
        d.offset + n1 + n2 <= usize::MAX,
    ensures
        ({
            let ln1 = d.effective_n(n1);
            let (d1, l1, s1) = d.spec_feed(w1, n1);
            let ln2 = d1.effective_n(n2);
            let (d2, l2, s2) = d1.spec_feed(w2, n2);
            &&& d1.offset == d.offset + ln1
            &&& (n1 != 0 && !d.elides(w1, ln1) ==> l1[if d.skipped_lines > 0 {
                1int
            } else {
                0int
            }] == d.data_line_of(w1, ln1))
            &&& (n2 != 0 && !d1.elides(w2, ln2) ==> d2.offset == d.offset + ln1 + ln2 && l2[if
                d1.skipped_lines > 0 {
                1int
            } else {
                0int
            }] == d1.data_line_of(w2, ln2))
        }),
{
}

} // verus!

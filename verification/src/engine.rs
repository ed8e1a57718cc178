//! The dump engine: consumes fixed-size byte windows in stream order,
//! suppresses repeated all-zero rows, truncates at a configured byte limit,
//! and renders every window it does not suppress.

use vstd::prelude::*;
use crate::render::spec_ascii;
use crate::line::{spec_hex_field, spec_line_text, build_line};
use crate::{all_zero, all_zero_seq, LINE_BYTES};

verus! {

/// The fixed width of the hex field for a given word size: two digits per
/// byte of every full word of a full row, plus one separator space per word,
/// the trailing one included.
pub open spec fn spec_hex_len(ws: int) -> int {
    ws * 2 * (LINE_BYTES as int / ws) + LINE_BYTES as int / ws
}

/// The engine's whole state: the configuration (word size, fixed hex-field
/// width, byte limit with zero meaning unbounded, and whether all-zero rows
/// are suppressed) and the cursor (bytes consumed so far, whether the last
/// handled window was all-zero, and how many rows were suppressed since the
/// last rendered one).
pub struct Dumper {
    pub word_size: usize,
    pub hex_length: usize,
    pub limit: usize,
    pub skip_zero_lines: bool,
    pub offset: usize,
    pub last_was_all_zero: bool,
    pub skipped_lines: usize,
}

impl Dumper {
    /// The state invariant: a positive word size, an offset that never
    /// passes a nonzero limit, and a suppressed-row count covered by the
    /// bytes consumed so far.
    pub open spec fn wf(self) -> bool {
        &&& self.word_size >= 1
        &&& (self.limit != 0 ==> self.offset <= self.limit)
        &&& self.skipped_lines * LINE_BYTES <= self.offset
    }

    /// Bytes actually consumed out of a read of `n_read` bytes: the window
    /// is truncated so that the offset lands exactly on a nonzero limit.
    pub open spec fn effective_n(self, n_read: nat) -> nat
        recommends
            self.wf(),
    {
        if self.limit != 0 && self.offset + n_read >= self.limit {
            (self.limit - self.offset) as nat
        } else {
            n_read
        }
    }

    /// A window is suppressed exactly when suppression is enabled, its `n`
    /// valid bytes are all zero, the previous window was all-zero too, the
    /// window is full-width, and it does not land exactly on a nonzero
    /// limit. Partial windows are never suppressed, and neither is the last
    /// window before the limit: both end the display and must show where it
    /// ends.
    pub open spec fn elides(self, window: Seq<u8>, n: nat) -> bool {
        &&& self.skip_zero_lines
        &&& all_zero_seq(window.take(n as int))
        &&& self.last_was_all_zero
        &&& n == LINE_BYTES
        &&& !(self.limit != 0 && self.offset + n == self.limit)
    }

    /// The rendered text of a window of `n` valid bytes handled in this
    /// state: it starts at the current offset.
    pub open spec fn data_line_of(self, data: Seq<u8>, n: nat) -> Seq<char> {
        spec_line_text(
            self.offset as nat,
            spec_hex_field(data.take(n as int), self.word_size as int),
            spec_ascii(data.take(n as int)),
            self.hex_length as int,
        )
    }

    /// What one step of the engine does with a window of `n_read` bytes
    /// freshly read into `data` (`n_read == 0` at end of stream): the next
    /// state, the texts emitted in order, and whether the run is over.
    ///
    /// At end of stream, a pending run of suppressed rows is closed by a
    /// single `*` marker and nothing else is emitted. A suppressed window
    /// only advances the offset and the suppressed count. A rendered window
    /// is preceded by a `*` marker when it closes a run of suppressed rows,
    /// and followed by a `**` marker when it lands exactly on a nonzero
    /// limit, which ends the run.
    pub open spec fn spec_feed(self, data: Seq<u8>, n_read: nat) -> (Dumper, Seq<Seq<char>>, bool)
        recommends
            self.wf(),
            n_read <= data.len() == LINE_BYTES,
    {
        if n_read == 0 {
            if self.skipped_lines == 0 {
                (self, Seq::empty(), true)
            } else {
                (Dumper { skipped_lines: 0, ..self }, seq![seq!['*']], true)
            }
        } else {
            let n = self.effective_n(n_read);
            let off2 = self.offset + n;
            let zero = self.skip_zero_lines && all_zero_seq(data.take(n as int));
            if self.elides(data, n) {
                (
                    Dumper {
                        offset: off2 as usize,
                        skipped_lines: (self.skipped_lines + 1) as usize,
                        ..self
                    },
                    Seq::empty(),
                    false,
                )
            } else {
                let line = self.data_line_of(data, n);
                let lines: Seq<Seq<char>> = if self.skipped_lines > 0 {
                    seq![seq!['*'], line]
                } else {
                    seq![line]
                };
                let st = Dumper {
                    offset: off2 as usize,
                    last_was_all_zero: zero,
                    skipped_lines: 0,
                    ..self
                };
                if self.limit != 0 && off2 == self.limit {
                    (st, lines + seq![seq!['*', '*']], true)
                } else {
                    (st, lines, false)
                }
            }
        }
    }

    /// A fresh engine: configuration fixed, cursor at `start_offset` (the
    /// position a caller seeked to, or zero), nothing suppressed yet. The
    /// hex-field width follows the word size.
    pub fn new(word_size: usize, limit: usize, skip_zero_lines: bool, start_offset: usize) -> (d:
        Dumper)
        requires
            word_size >= 1,
            limit != 0 ==> start_offset <= limit,
        ensures
            d.wf(),
            d.word_size == word_size,
            d.hex_length == spec_hex_len(word_size as int),
            d.limit == limit,
            d.skip_zero_lines == skip_zero_lines,
            d.offset == start_offset,
            d.last_was_all_zero == false,
            d.skipped_lines == 0,
    {
        let words: usize = LINE_BYTES / word_size;
        proof {
            if words >= 1 {
                assert(word_size <= 16 && words <= 16) by (nonlinear_arith)
                    requires
                        words == 16int / (word_size as int),
                        word_size >= 1,
                        words >= 1,
                ;
            }
            assert(word_size * 2 * words == words * 2 * word_size) by (nonlinear_arith);
            assert(words * 2 * word_size + words <= 600) by (nonlinear_arith)
                requires
                    words == 0 || (words <= 16 && word_size <= 16),
            ;
        }
        let hex_length: usize = words * 2 * word_size + words;
        Dumper {
            word_size,
            hex_length,
            limit,
            skip_zero_lines,
            offset: start_offset,
            last_was_all_zero: false,
            skipped_lines: 0,
        }
    }

    /// Handles one freshly read window: `buf` is the full read buffer, of
    /// which the first `n_read` bytes were read (`n_read == 0` at end of
    /// stream). Returns the texts to emit, in order, and whether the caller
    /// must stop reading. Behaves exactly as `spec_feed` states.
    pub fn feed(&mut self, buf: &[u8], n_read: usize) -> (out: (Vec<String>, bool))
        requires
            old(self).wf(),
            n_read <= buf@.len(),
            buf@.len() == LINE_BYTES,
            old(self).offset + n_read <= usize::MAX,
        ensures
            final(self).wf(),
            ({
                let (st, lines, stop) = old(self).spec_feed(buf@, n_read as nat);
                &&& *final(self) == st
                &&& out.0@.map_values(|s: String| s@) == lines
                &&& out.1 == stop
            }),
    {
        let mut lines: Vec<String> = Vec::new();
        if n_read == 0 {
            if self.skipped_lines == 0 {
                proof {
                    assert(lines@.map_values(|s: String| s@) =~= Seq::<Seq<char>>::empty());
                }
                return (lines, true);
            }
            self.skipped_lines = 0;
            let star = "*".to_owned();
            proof {
                reveal_strlit("*");
                assert(star@ =~= seq!['*']);
            }
            lines.push(star);
            proof {
                assert(lines@.map_values(|s: String| s@) =~= seq![seq!['*']]);
            }
            return (lines, true);
        }
        let n: usize = if self.limit != 0 && self.offset + n_read >= self.limit {
            self.limit - self.offset
        } else {
            n_read
        };
        self.offset = self.offset + n;
        let is_zero = self.skip_zero_lines && all_zero(&buf[0..n]);
        if is_zero && self.last_was_all_zero && n == LINE_BYTES && !(self.limit != 0 && self.offset
            == self.limit) {
            self.skipped_lines = self.skipped_lines + 1;
            proof {
                assert(lines@.map_values(|s: String| s@) =~= Seq::<Seq<char>>::empty());
            }
            return (lines, false);
        }
        if self.skipped_lines > 0 {
            self.skipped_lines = 0;
            let star = "*".to_owned();
            proof {
                reveal_strlit("*");
                assert(star@ =~= seq!['*']);
            }
            lines.push(star);
        }
        let line = build_line(self.offset, buf, n, self.word_size, self.hex_length);
        let text = line.render();
        lines.push(text);
        self.last_was_all_zero = is_zero;
        if self.limit != 0 && self.offset == self.limit {
            let marker = "**".to_owned();
            proof {
                reveal_strlit("**");
                assert(marker@ =~= seq!['*', '*']);
            }
            lines.push(marker);
            proof {
                let (st, slines, stop) = old(self).spec_feed(buf@, n_read as nat);
                assert(lines@.map_values(|s: String| s@) =~= slines);
            }
            return (lines, true);
        }
        proof {
            let (st, slines, stop) = old(self).spec_feed(buf@, n_read as nat);
            assert(lines@.map_values(|s: String| s@) =~= slines);
        }
        (lines, false)
    }
}

/// One run of the engine over a stream of windows, each a read buffer and
/// the count of bytes read into it: the texts emitted, in order, up to and
/// including the step that says to stop.
pub open spec fn spec_run(d: Dumper, windows: Seq<(Seq<u8>, nat)>) -> Seq<Seq<char>>
    decreases windows.len(),
{
    if windows.len() == 0 {
        Seq::empty()
    } else {
        let (d2, lines, stop) = d.spec_feed(windows[0].0, windows[0].1);
        if stop {
            lines
        } else {
            lines + spec_run(d2, windows.skip(1))
        }
    }
}

/// The state a run ends in: the engine after feeding windows in order, up
/// to and including the step that says to stop.
pub open spec fn run_end(d: Dumper, windows: Seq<(Seq<u8>, nat)>) -> Dumper
    decreases windows.len(),
{
    if windows.len() == 0 {
        d
    } else {
        let (d2, lines, stop) = d.spec_feed(windows[0].0, windows[0].1);
        if stop {
            d2
        } else {
            run_end(d2, windows.skip(1))
        }
    }
}

/// A full-width read buffer of zeros.
pub open spec fn zero_window() -> Seq<u8> {
    Seq::new(LINE_BYTES as nat, |i: int| 0u8)
}

/// A short tail padded with zeros to a full read buffer.
pub open spec fn padded_window(data: Seq<u8>) -> Seq<u8>
    recommends
        data.len() <= LINE_BYTES,
{
    data + Seq::new((LINE_BYTES - data.len()) as nat, |i: int| 0u8)
}

/// The windows a byte stream hands the engine, in order: one full buffer
/// per complete row, a zero-padded buffer carrying a shorter tail when one
/// remains, and the end-of-stream window of no bytes.
pub open spec fn windows_of(data: Seq<u8>) -> Seq<(Seq<u8>, nat)>
    decreases data.len(),
{
    if data.len() >= LINE_BYTES {
        seq![(data.take(LINE_BYTES as int), LINE_BYTES as nat)] + windows_of(
            data.skip(LINE_BYTES as int),
        )
    } else if data.len() > 0 {
        seq![(padded_window(data), data.len()), (zero_window(), 0nat)]
    } else {
        seq![(zero_window(), 0nat)]
    }
}

/// The state a run starts from: the configuration, a cursor at
/// `start_offset`, and nothing suppressed yet.
pub open spec fn initial(
    word_size: usize,
    limit: usize,
    skip_zero_lines: bool,
    start_offset: usize,
) -> Dumper {
    Dumper {
        word_size,
        hex_length: spec_hex_len(word_size as int) as usize,
        limit,
        skip_zero_lines,
        offset: start_offset,
        last_was_all_zero: false,
        skipped_lines: 0,
    }
}

/// Renders a whole in-memory byte stream: the same loop the command runs
/// over a file, as a pure function of the bytes and the configuration.
#[verifier::rlimit(50)]
pub fn dump_bytes(
    data: &[u8],
    word_size: usize,
    limit: usize,
    skip_zero_lines: bool,
    start_offset: usize,
) -> (out: Vec<String>)
    requires
        word_size >= 1,
        limit != 0 ==> start_offset <= limit,
        start_offset + data@.len() <= usize::MAX,
    ensures
        out@.map_values(|s: String| s@) == spec_run(
            initial(word_size, limit, skip_zero_lines, start_offset),
            windows_of(data@),
        ),
{
    let mut d = Dumper::new(word_size, limit, skip_zero_lines, start_offset);
    let ghost d0 = initial(word_size, limit, skip_zero_lines, start_offset);
    proof {
        assert(d == d0);
    }
    let mut out: Vec<String> = Vec::new();
    let mut p: usize = 0;
    let mut done = false;
    proof {
        assert(out@.map_values(|s: String| s@) =~= Seq::<Seq<char>>::empty());
        assert(data@.skip(0) =~= data@);
    }
    while !done
        invariant
            done ==> out@.map_values(|s: String| s@) == spec_run(d0, windows_of(data@)),
            !done ==> {
                &&& p <= data@.len() <= usize::MAX
                &&& d.wf()
                &&& d.offset == start_offset + p
                &&& start_offset + data@.len() <= usize::MAX
                &&& spec_run(d0, windows_of(data@)) == out@.map_values(|s: String| s@) + spec_run(
                    d,
                    windows_of(data@.skip(p as int)),
                )
            },
        decreases data@.len() - p + (if done {
            0int
        } else {
            1int
        }),
    {
        let ghost rest = windows_of(data@.skip(p as int));
        let ghost d_pre = d;
        let ghost out_pre = out@;
        let remaining = data.len() - p;
        let mut fed: Vec<String>;
        let stop: bool;
        if remaining >= LINE_BYTES {
            let window = &data[p..p + LINE_BYTES];
            proof {
                assert(window@ =~= data@.skip(p as int).take(LINE_BYTES as int));
            }
            let r = d.feed(window, LINE_BYTES);
            fed = r.0;
            stop = r.1;
            proof {
                assert(rest[0] == (data@.skip(p as int).take(LINE_BYTES as int), LINE_BYTES as nat));
                assert(data@.skip(p as int).skip(LINE_BYTES as int) =~= data@.skip(
                    p + LINE_BYTES,
                ));
                assert(rest.skip(1) =~= windows_of(data@.skip(p + LINE_BYTES)));
            }
            p = p + LINE_BYTES;
        } else if remaining > 0 {
            let mut window: Vec<u8> = Vec::new();
            let mut j: usize = 0;
            while j < remaining
                invariant
                    p + remaining <= data@.len() <= usize::MAX,
                    0 <= j <= remaining,
                    window@ =~= data@.subrange(p as int, p + j),
                decreases remaining - j,
            {
                window.push(data[p + j]);
                j = j + 1;
            }
            while window.len() < LINE_BYTES
                invariant
                    remaining <= window@.len() <= LINE_BYTES,
                    window@.take(remaining as int) =~= data@.subrange(p as int, p + remaining),
                    forall|k: int| remaining <= k < window@.len() ==> window@[k] == 0,
                decreases LINE_BYTES - window@.len(),
            {
                window.push(0);
            }
            proof {
                assert(data@.subrange(p as int, p + remaining) =~= data@.skip(p as int));
                assert(window@ =~= padded_window(data@.skip(p as int)));
            }
            let r = d.feed(window.as_slice(), remaining);
            fed = r.0;
            stop = r.1;
            proof {
                assert(rest[0] == (padded_window(data@.skip(p as int)), remaining as nat));
                assert(rest.skip(1) =~= windows_of(data@.skip(p + remaining)));
                assert(data@.skip(p + remaining) =~= Seq::<u8>::empty());
            }
            p = p + remaining;
        } else {
            let mut window: Vec<u8> = Vec::new();
            while window.len() < LINE_BYTES
                invariant
                    window@.len() <= LINE_BYTES,
                    forall|k: int| 0 <= k < window@.len() ==> window@[k] == 0,
                decreases LINE_BYTES - window@.len(),
            {
                window.push(0);
            }
            proof {
                assert(window@ =~= zero_window());
                assert(data@.skip(p as int) =~= Seq::<u8>::empty());
                assert(rest[0] == (zero_window(), 0nat));
            }
            let r = d.feed(window.as_slice(), 0);
            fed = r.0;
            stop = r.1;
            proof {
                assert(stop);
            }
        }
        proof {
            let (st, slines, sstop) = d_pre.spec_feed(rest[0].0, rest[0].1);
            assert(fed@.map_values(|s: String| s@) == slines);
            assert(stop == sstop);
        }
        let mut k: usize = 0;
        while k < fed.len()
            invariant
                0 <= k <= fed@.len(),
                out@ =~= out_pre + fed@.take(k as int),
            decreases fed@.len() - k,
        {
            let text = fed[k].clone();
            out.push(text);
            proof {
                assert(out@ =~= out_pre + fed@.take(k + 1));
            }
            k = k + 1;
        }
        proof {
            assert(out@ =~= out_pre + fed@);
            assert(out@.map_values(|s: String| s@) =~= out_pre.map_values(|s: String| s@)
                + fed@.map_values(|s: String| s@));
        }
        if stop {
            done = true;
            proof {
                let (st, slines, sstop) = d_pre.spec_feed(rest[0].0, rest[0].1);
                assert(spec_run(d_pre, rest) == slines);
            }
        } else {
            proof {
                let (st, slines, sstop) = d_pre.spec_feed(rest[0].0, rest[0].1);
                assert(spec_run(d_pre, rest) == slines + spec_run(st, rest.skip(1)));
                assert(st == d);
                assert(spec_run(d0, windows_of(data@)) == out@.map_values(|s: String| s@)
                    + spec_run(d, windows_of(data@.skip(p as int))));
            }
        }
    }
    out
}

} // verus!

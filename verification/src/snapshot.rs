//! The snapshot: a model written down as text, and read back.
//!
//! A snapshot has a header line with the sizes and counters, a line with the
//! 32 source cells, a line with the 24 channels of the palette, the cells in
//! runs, and a closing line that says how many cells were written:
//!
//! ```text
//! lakhesis,alpha,<width>,<height>,<total>,<lost>,<interval>,<sources>,<avalanche>
//! drops,<cell>,...
//! hues,<channel>,...
//! <count>,f
//! <count>,t,<one digit for each cell>
//! Checksum: <written> of <cells> cells recorded
//! ```
//!
//! A run of cells that no grain has reached is written as its length and
//! `f`, a run of cells that a grain has reached as its length, `t` and the
//! grain count of each.

use crate::cell::Cell;
use crate::decimal::{as_nats, decimal, push_bytes, push_decimal};
use crate::hues::{Hues, Rgba};
use crate::model::{untouched, Model, State, MAX_DROPS};
use vstd::prelude::*;
use vstd::string::StringSliceAdditionalSpecFns;

verus! {

/// What the header line starts with: the name and the version of the format.
pub open spec fn header_tag() -> Seq<u8> {
    "lakhesis,alpha".spec_bytes()
}

/// What the line of sources starts with.
pub open spec fn drops_tag() -> Seq<u8> {
    "drops".spec_bytes()
}

/// What the palette line starts with.
pub open spec fn hues_tag() -> Seq<u8> {
    "hues".spec_bytes()
}

/// What the closing line starts with.
pub open spec fn checksum_tag() -> Seq<u8> {
    "Checksum: ".spec_bytes()
}

/// What stands between the two counts of the closing line.
pub open spec fn checksum_of() -> Seq<u8> {
    " of ".spec_bytes()
}

/// What the closing line ends with.
pub open spec fn checksum_end() -> Seq<u8> {
    " cells recorded".spec_bytes()
}

/// What stands before each number of a record.
pub open spec fn comma() -> Seq<u8> {
    seq![44u8]
}

/// The end of a line.
pub open spec fn newline() -> Seq<u8> {
    seq![10u8]
}

/// What ends a run of cells that no grain has reached: `,f` and the line.
pub open spec fn untouched_mark() -> Seq<u8> {
    seq![44u8, 102u8, 10u8]
}

/// What stands between the length of a run of cells that a grain has
/// reached and their grain counts: `,t,`.
pub open spec fn touched_mark() -> Seq<u8> {
    seq![44u8, 116u8, 44u8]
}

/// Numbers in a row, a comma before each.
pub open spec fn fields(vals: Seq<nat>) -> Seq<u8>
    decreases vals.len(),
{
    if vals.len() == 0 {
        Seq::empty()
    } else {
        fields(vals.drop_last()) + comma() + decimal(vals.last())
    }
}

/// A line that holds a tag and numbers.
pub open spec fn record(tag: Seq<u8>, vals: Seq<nat>) -> Seq<u8> {
    tag + fields(vals) + newline()
}

/// The numbers of the header line.
pub open spec fn header_values(s: State) -> Seq<nat> {
    seq![
        s.width,
        s.height,
        s.total_grains,
        s.lost_grains,
        s.interval,
        s.active_cells,
        s.avalanche,
    ]
}

/// The numbers of the line of sources.
pub open spec fn drop_values(s: State) -> Seq<nat> {
    Seq::new(MAX_DROPS as nat, |k: int| s.drop_cells[k] as nat)
}

/// The four channels of a colour.
pub open spec fn channels(c: Rgba) -> Seq<nat> {
    seq![c.r as nat, c.g as nat, c.b as nat, c.a as nat]
}

/// The numbers of the palette line.
pub open spec fn hue_values(h: Hues) -> Seq<nat> {
    channels(h.untouched) + channels(h.zero_grains) + channels(h.one_grain) + channels(
        h.two_grains,
    ) + channels(h.three_grains) + channels(h.four_grains)
}

/// The length of the run that `cells` starts with: the cells up to the
/// first that differs from the first in whether a grain has reached it.
pub open spec fn run_len(cells: Seq<Cell>) -> nat
    decreases cells.len(),
{
    if cells.len() == 0 {
        0
    } else if cells.len() > 1 && cells[1].borged == cells[0].borged {
        1 + run_len(cells.skip(1))
    } else {
        1
    }
}

/// The grain counts of a run, one after the other.
pub open spec fn grain_digits(run: Seq<Cell>) -> Seq<u8>
    decreases run.len(),
{
    if run.len() == 0 {
        Seq::empty()
    } else {
        grain_digits(run.drop_last()) + decimal(run.last().grains as nat)
    }
}

/// The line that holds one run.
pub open spec fn run_line(run: Seq<Cell>) -> Seq<u8> {
    if run[0].borged {
        decimal(run.len()) + touched_mark() + grain_digits(run) + newline()
    } else {
        decimal(run.len()) + untouched_mark()
    }
}

/// The lines that hold the cells, run by run.
pub open spec fn run_lines(cells: Seq<Cell>) -> Seq<u8>
    decreases cells.len(),
{
    if cells.len() == 0 {
        Seq::empty()
    } else {
        proof {
            lemma_run_len_bounds(cells);
        }
        run_line(cells.take(run_len(cells) as int)) + run_lines(cells.skip(run_len(cells) as int))
    }
}

/// The closing line.
pub open spec fn checksum_line(written: nat, cells: nat) -> Seq<u8> {
    checksum_tag() + decimal(written) + checksum_of() + decimal(cells) + checksum_end()
}

/// The snapshot of a model. The turn of the sources is not part of it.
pub open spec fn snapshot(s: State) -> Seq<u8> {
    record(header_tag(), header_values(s)) + record(drops_tag(), drop_values(s)) + record(
        hues_tag(),
        hue_values(s.hues),
    ) + run_lines(s.cells) + checksum_line(s.cells.len(), s.cells.len())
}

/// A run is as long as its cells agree with the first.
pub proof fn lemma_run_len(cells: Seq<Cell>, k: int)
    requires
        0 < k <= cells.len(),
        forall|j: int| 0 <= j < k ==> (#[trigger] cells[j]).borged == cells[0].borged,
        k == cells.len() || cells[k].borged != cells[0].borged,
    ensures
        run_len(cells) == k,
    decreases k,
{
    if k > 1 {
        assert(cells[1].borged == cells[0].borged);
        let rest = cells.skip(1);
        assert forall|j: int| 0 <= j < k - 1 implies (#[trigger] rest[j]).borged
            == rest[0].borged by {
            assert(rest[j] == cells[j + 1]);
        }
        lemma_run_len(rest, k - 1);
    }
}

/// A run is not empty and not longer than the cells.
pub proof fn lemma_run_len_bounds(cells: Seq<Cell>)
    requires
        cells.len() > 0,
    ensures
        0 < run_len(cells) <= cells.len(),
        forall|j: int| 0 <= j < run_len(cells) ==> (#[trigger] cells[j]).borged == cells[0].borged,
        run_len(cells) == cells.len() || cells[run_len(cells) as int].borged != cells[0].borged,
    decreases cells.len(),
{
    if cells.len() > 1 && cells[1].borged == cells[0].borged {
        let rest = cells.skip(1);
        lemma_run_len_bounds(rest);
        assert forall|j: int| 0 <= j < run_len(cells) implies (#[trigger] cells[j]).borged
            == cells[0].borged by {
            if j > 0 {
                assert(rest[j - 1] == cells[j]);
            }
        }
        if run_len(cells) < cells.len() {
            assert(rest[run_len(rest) as int] == cells[run_len(cells) as int]);
        }
    }
}

/// Appends the numbers of `vals`, a comma before each.
pub fn push_fields(out: &mut Vec<u8>, vals: &[usize])
    ensures
        final(out)@ == old(out)@ + fields(as_nats(vals@)),
{
    let ghost all = as_nats(vals@);
    let mut i: usize = 0;
    proof {
        assert(all.take(0) =~= Seq::<nat>::empty());
        assert(out@ =~= old(out)@ + fields(all.take(0)));
    }
    while i < vals.len()
        invariant
            i <= vals.len(),
            all == as_nats(vals@),
            out@ == old(out)@ + fields(all.take(i as int)),
        decreases vals.len() - i,
    {
        let ghost so_far = out@;
        out.push(44u8);
        push_decimal(out, vals[i]);
        proof {
            assert(all.take(i + 1).drop_last() =~= all.take(i as int));
            assert(all.take(i + 1).last() == vals@[i as int] as nat);
            assert(out@ =~= old(out)@ + fields(all.take(i + 1)));
        }
        i = i + 1;
    }
    proof {
        assert(all.take(i as int) =~= all);
    }
}

/// Appends a line with a tag and numbers.
pub fn push_record(out: &mut Vec<u8>, tag: &str, vals: &[usize])
    ensures
        final(out)@ == old(out)@ + record(
            tag.spec_bytes(),
            as_nats(vals@),
        ),
{
    push_bytes(out, tag.as_bytes());
    push_fields(out, vals);
    out.push(10u8);
    proof {
        assert(final(out)@ =~= old(out)@ + record(
            tag.spec_bytes(),
            as_nats(vals@),
        ));
    }
}

/// Appends the lines that hold the cells, run by run.
pub fn push_run_lines(out: &mut Vec<u8>, cells: &Vec<Cell>)
    ensures
        final(out)@ == old(out)@ + run_lines(cells@),
{
    let mut cursor: usize = 0;
    proof {
        assert(cells@.skip(0) =~= cells@);
        assert(out@ + run_lines(cells@.skip(0)) =~= old(out)@ + run_lines(cells@));
    }
    while cursor < cells.len()
        invariant
            cursor <= cells.len(),
            out@ + run_lines(cells@.skip(cursor as int)) == old(out)@ + run_lines(cells@),
        decreases cells.len() - cursor,
    {
        let ghost so_far = out@;
        let ghost ahead = cells@.skip(cursor as int);
        let touched = cells[cursor].borged;
        let mut end: usize = cursor + 1;
        while end < cells.len() && cells[end].borged == touched
            invariant
                cursor < end <= cells.len(),
                touched == cells@[cursor as int].borged,
                forall|j: int| cursor <= j < end ==> (#[trigger] cells@[j]).borged == touched,
            decreases cells.len() - end,
        {
            end = end + 1;
        }
        let count: usize = end - cursor;
        let ghost run = ahead.take(count as int);
        proof {
            assert forall|j: int| 0 <= j < count implies (#[trigger] ahead[j]).borged
                == ahead[0].borged by {
                assert(ahead[j] == cells@[cursor + j]);
            }
            lemma_run_len(ahead, count as int);
            assert(ahead.skip(count as int) =~= cells@.skip(end as int));
        }
        push_decimal(out, count);
        if touched {
            out.push(44u8);
            out.push(116u8);
            out.push(44u8);
            let ghost before_digits = out@;
            let mut i: usize = cursor;
            proof {
                assert(run.take(0) =~= Seq::<Cell>::empty());
                assert(out@ =~= before_digits + grain_digits(run.take(0)));
            }
            while i < end
                invariant
                    cursor <= i <= end <= cells.len(),
                    count == end - cursor,
                    run == cells@.skip(cursor as int).take(count as int),
                    out@ == before_digits + grain_digits(run.take(i - cursor)),
                decreases end - i,
            {
                push_decimal(out, cells[i].grains as usize);
                proof {
                    assert(run.take(i + 1 - cursor).drop_last() =~= run.take(i - cursor));
                    assert(run.take(i + 1 - cursor).last() == cells@[i as int]);
                    assert(out@ =~= before_digits + grain_digits(run.take(i + 1 - cursor)));
                }
                i = i + 1;
            }
            out.push(10u8);
            proof {
                assert(run.take(count as int) =~= run);
                assert(out@ =~= so_far + run_line(run));
            }
        } else {
            out.push(44u8);
            out.push(102u8);
            out.push(10u8);
            proof {
                assert(out@ =~= so_far + run_line(run));
            }
        }
        proof {
            assert(out@ + run_lines(cells@.skip(end as int)) =~= so_far + run_lines(ahead));
        }
        cursor = end;
    }
    proof {
        assert(cells@.skip(cursor as int) =~= Seq::<Cell>::empty());
        assert(out@ =~= old(out)@ + run_lines(cells@));
    }
}

impl Model {
    /// Writes the model down as a snapshot.
    pub fn curate(&self) -> (text: Vec<u8>)
        ensures
            text@ == snapshot(self@),
    {
        let mut out: Vec<u8> = Vec::new();
        let header: [usize; 7] = [
            self.width,
            self.height,
            self.total_grains,
            self.lost_grains,
            self.interval,
            self.active_cells,
            self.avalanche,
        ];
        let palette: [usize; 24] = [
            self.hues.untouched.r as usize,
            self.hues.untouched.g as usize,
            self.hues.untouched.b as usize,
            self.hues.untouched.a as usize,
            self.hues.zero_grains.r as usize,
            self.hues.zero_grains.g as usize,
            self.hues.zero_grains.b as usize,
            self.hues.zero_grains.a as usize,
            self.hues.one_grain.r as usize,
            self.hues.one_grain.g as usize,
            self.hues.one_grain.b as usize,
            self.hues.one_grain.a as usize,
            self.hues.two_grains.r as usize,
            self.hues.two_grains.g as usize,
            self.hues.two_grains.b as usize,
            self.hues.two_grains.a as usize,
            self.hues.three_grains.r as usize,
            self.hues.three_grains.g as usize,
            self.hues.three_grains.b as usize,
            self.hues.three_grains.a as usize,
            self.hues.four_grains.r as usize,
            self.hues.four_grains.g as usize,
            self.hues.four_grains.b as usize,
            self.hues.four_grains.a as usize,
        ];
        proof {
            assert(as_nats(header@) =~= header_values(self@));
            assert(as_nats(self.drop_cells@) =~= drop_values(self@));
            assert(as_nats(palette@) =~= hue_values(self.hues));
        }
        push_record(&mut out, "lakhesis,alpha", header.as_slice());
        push_record(&mut out, "drops", self.drop_cells.as_slice());
        push_record(&mut out, "hues", palette.as_slice());
        push_run_lines(&mut out, &self.cells);
        push_bytes(&mut out, "Checksum: ".as_bytes());
        push_decimal(&mut out, self.cells.len());
        push_bytes(&mut out, " of ".as_bytes());
        push_decimal(&mut out, self.cells.len());
        push_bytes(&mut out, " cells recorded".as_bytes());
        proof {
            assert(out@ =~= snapshot(self@));
        }
        out
    }
}

} // verus!

//! What is written is read back.
//!
//! The snapshot of a model that is in order reads back as that same model,
//! piece by piece: each number where the text does not go on with a digit,
//! each record on its line, each run of cells, and the closing line.

use crate::cell::Cell;
use crate::decimal::{
    decimal, digit, holds_at, is_digit, lemma_decimal_digits, lemma_holds_at_concat,
    lemma_holds_at_index, lemma_parse_decimal, no_digit_at,
};
use crate::model::{Model, State, MAX_DROPS};
use crate::restore::{
    all_channels, kept_turn, lemma_holds_three, parse_checksum, parse_fields, parse_record,
    parse_runs, parse_snapshot, state_from, touched_run, untouched_run, Parsed,
};
use crate::snapshot::{
    checksum_end, checksum_line, checksum_of, checksum_tag, comma, drop_values, drops_tag,
    fields, grain_digits, header_tag, header_values, hue_values, hues_tag, lemma_run_len_bounds,
    newline, record, run_len, run_line, run_lines, snapshot, touched_mark, untouched_mark,
};
use vstd::prelude::*;
use vstd::string::StringSliceAdditionalSpecFns;
use vstd::utf8::is_ascii_chars_encode_utf8;

verus! {

/// Every number of the row is one that the machine can hold.
pub open spec fn all_fit(vals: Seq<nat>) -> bool {
    forall|k: int| 0 <= k < vals.len() ==> #[trigger] vals[k] <= usize::MAX
}

/// The closing line starts with a letter, and its two other pieces with a
/// blank.
pub proof fn lemma_checksum_pieces()
    ensures
        checksum_tag().len() > 0,
        !is_digit(checksum_tag()[0]),
        checksum_of().len() > 0,
        !is_digit(checksum_of()[0]),
        checksum_end().len() > 0,
        !is_digit(checksum_end()[0]),
{
    reveal_strlit("Checksum: ");
    reveal_strlit(" of ");
    reveal_strlit(" cells recorded");
    is_ascii_chars_encode_utf8("Checksum: "@);
    is_ascii_chars_encode_utf8(" of "@);
    is_ascii_chars_encode_utf8(" cells recorded"@);
}

/// A row of numbers is read back where the text does not go on with a
/// digit.
pub proof fn lemma_parse_fields(t: Seq<u8>, pos: int, vals: Seq<nat>)
    requires
        holds_at(t, pos, fields(vals)),
        no_digit_at(t, pos + fields(vals).len()),
        all_fit(vals),
    ensures
        parse_fields(t, pos, vals.len()) == Some((vals, pos + fields(vals).len())),
    decreases vals.len(),
{
    if vals.len() > 0 {
        let init = vals.drop_last();
        let last = vals.last();
        let a = fields(init);
        lemma_holds_at_concat(t, pos, a + comma(), decimal(last));
        lemma_holds_at_concat(t, pos, a, comma());
        lemma_holds_at_index(t, pos + a.len(), comma(), 0);
        lemma_parse_fields(t, pos, init);
        assert(vals[vals.len() - 1] <= usize::MAX);
        lemma_parse_decimal(t, pos + a.len() + 1, last);
        assert(init.push(last) =~= vals);
    }
}

/// A record is read back.
pub proof fn lemma_parse_record(t: Seq<u8>, pos: int, tag: Seq<u8>, vals: Seq<nat>)
    requires
        holds_at(t, pos, record(tag, vals)),
        all_fit(vals),
    ensures
        parse_record(t, pos, tag, vals.len()) == Some((vals, pos + record(tag, vals).len())),
{
    lemma_holds_at_concat(t, pos, tag + fields(vals), newline());
    lemma_holds_at_concat(t, pos, tag, fields(vals));
    lemma_holds_at_index(t, pos + tag.len() + fields(vals).len(), newline(), 0);
    lemma_parse_fields(t, pos + tag.len(), vals);
}

/// The grain counts of stable cells are written with one digit each.
pub proof fn lemma_grain_digits(run: Seq<Cell>)
    requires
        forall|j: int| 0 <= j < run.len() ==> (#[trigger] run[j]).grains < 10,
    ensures
        grain_digits(run).len() == run.len(),
        forall|j: int| 0 <= j < run.len() ==> #[trigger] grain_digits(run)[j] == digit(
            run[j].grains as nat,
        ),
    decreases run.len(),
{
    if run.len() > 0 {
        let init = run.drop_last();
        lemma_grain_digits(init);
        assert(decimal(run.last().grains as nat) =~= seq![digit(run.last().grains as nat)]);
    }
}

/// The runs of the cells of a model are read back where the text does not
/// go on with a digit.
pub proof fn lemma_parse_runs(t: Seq<u8>, pos: int, cells: Seq<Cell>, room: nat)
    requires
        holds_at(t, pos, run_lines(cells)),
        no_digit_at(t, pos + run_lines(cells).len()),
        cells.len() <= room <= usize::MAX,
        forall|j: int| 0 <= j < cells.len() ==> (#[trigger] cells[j]).grains < 10,
        forall|j: int| 0 <= j < cells.len() ==> ((#[trigger] cells[j]).grains > 0 ==> cells[j].borged),
    ensures
        parse_runs(t, pos, room) == Some((cells, pos + run_lines(cells).len())),
    decreases cells.len(),
{
    if cells.len() > 0 {
        lemma_run_len_bounds(cells);
        let k = run_len(cells);
        let run = cells.take(k as int);
        let rest = cells.skip(k as int);
        let line = run_line(run);
        let number = decimal(k);
        lemma_decimal_digits(k);
        lemma_holds_at_concat(t, pos, line, run_lines(rest));
        assert forall|j: int| 0 <= j < rest.len() implies (#[trigger] rest[j]).grains < 10 && (
        rest[j].grains > 0 ==> rest[j].borged) by {
            assert(rest[j] == cells[k + j]);
        }
        let p = pos + number.len();
        if run[0].borged {
            let digits = grain_digits(run);
            assert forall|j: int| 0 <= j < run.len() implies (#[trigger] run[j]).grains < 10 by {
                assert(run[j] == cells[j]);
            }
            lemma_grain_digits(run);
            lemma_holds_at_concat(t, pos, number + touched_mark() + digits, newline());
            lemma_holds_at_concat(t, pos, number + touched_mark(), digits);
            lemma_holds_at_concat(t, pos, number, touched_mark());
            lemma_holds_at_index(t, pos, number, 0);
            lemma_holds_at_index(t, p, touched_mark(), 0);
            lemma_holds_at_index(t, p, touched_mark(), 1);
            lemma_holds_at_index(t, p + 3 + k, newline(), 0);
            lemma_parse_decimal(t, pos, k);
            lemma_holds_three(t, p, 44u8, 102u8, 10u8);
            assert forall|j: int| p + 3 <= j < p + 3 + k implies is_digit(#[trigger] t[j]) by {
                lemma_holds_at_index(t, p + 3, digits, j - p - 3);
            }
            assert(touched_run(t.subrange(p + 3, p + 3 + k)) =~= run) by {
                assert forall|j: int| 0 <= j < k implies touched_run(t.subrange(p + 3, p + 3 + k))[j]
                    == run[j] by {
                    lemma_holds_at_index(t, p + 3, digits, j);
                    assert(run[j] == cells[j]);
                }
            }
            lemma_parse_runs(t, p + 4 + k, rest, (room - k) as nat);
        } else {
            lemma_holds_at_concat(t, pos, number, untouched_mark());
            lemma_holds_at_index(t, pos, number, 0);
            lemma_holds_at_index(t, p, untouched_mark(), 0);
            lemma_parse_decimal(t, pos, k);
            assert(untouched_run(k) =~= run) by {
                assert forall|j: int| 0 <= j < k implies untouched_run(k)[j] == run[j] by {
                    assert(run[j] == cells[j]);
                }
            }
            lemma_parse_runs(t, p + 3, rest, (room - k) as nat);
        }
        assert(run + rest =~= cells);
    }
}

/// The closing line is read back at the end of the text.
pub proof fn lemma_parse_checksum(t: Seq<u8>, pos: int, written: nat, cells: nat)
    requires
        holds_at(t, pos, checksum_line(written, cells)),
        pos + checksum_line(written, cells).len() == t.len(),
        written <= usize::MAX,
        cells <= usize::MAX,
    ensures
        parse_checksum(t, pos) == Some((written, cells)),
{
    let a = checksum_tag();
    let b = decimal(written);
    let c = checksum_of();
    let d = decimal(cells);
    let e = checksum_end();
    lemma_checksum_pieces();
    lemma_holds_at_concat(t, pos, a + b + c + d, e);
    lemma_holds_at_concat(t, pos, a + b + c, d);
    lemma_holds_at_concat(t, pos, a + b, c);
    lemma_holds_at_concat(t, pos, a, b);
    lemma_holds_at_index(t, pos + a.len() + b.len(), c, 0);
    lemma_holds_at_index(t, pos + a.len() + b.len() + c.len() + d.len(), e, 0);
    lemma_parse_decimal(t, pos + a.len(), written);
    lemma_parse_decimal(t, pos + a.len() + b.len() + c.len(), cells);
}

impl State {
    /// Every number of the model is one that the machine can hold.
    pub open spec fn fits(self) -> bool {
        &&& self.width <= usize::MAX
        &&& self.height <= usize::MAX
        &&& self.cells.len() <= usize::MAX
        &&& self.total_grains <= usize::MAX
        &&& self.lost_grains <= usize::MAX
        &&& self.interval <= usize::MAX
        &&& self.avalanche <= usize::MAX
    }

    /// The model with the turn at the first source.
    pub open spec fn turn_reset(self) -> State {
        State { ac: 0, ..self }
    }

    /// The numbers of the three records are such as the machine and the
    /// channels can hold.
    pub proof fn lemma_values_fit(self)
        requires
            self.wf(),
            self.fits(),
        ensures
            all_fit(header_values(self)),
            all_fit(drop_values(self)),
            all_fit(hue_values(self.hues)),
            all_channels(hue_values(self.hues)),
            header_values(self).len() == 7,
            drop_values(self).len() == MAX_DROPS,
            hue_values(self.hues).len() == 24,
    {
    }

    /// The numbers of the three records make the model again.
    pub proof fn lemma_state_from_values(self)
        requires
            self.wf(),
        ensures
            state_from(header_values(self), drop_values(self), hue_values(self.hues), self.cells)
                == self.turn_reset(),
    {
        let back = state_from(
            header_values(self),
            drop_values(self),
            hue_values(self.hues),
            self.cells,
        );
        assert(back.drop_cells =~= self.drop_cells);
        assert(back.hues == self.hues);
    }

    /// Where the five parts of a snapshot stand in it.
    pub proof fn lemma_parts_stand(self)
        ensures
            ({
                let t = snapshot(self);
                let r1 = record(header_tag(), header_values(self));
                let r2 = record(drops_tag(), drop_values(self));
                let r3 = record(hues_tag(), hue_values(self.hues));
                let rl = run_lines(self.cells);
                let ck = checksum_line(self.cells.len(), self.cells.len());
                &&& holds_at(t, 0, r1)
                &&& holds_at(t, r1.len() as int, r2)
                &&& holds_at(t, (r1.len() + r2.len()) as int, r3)
                &&& holds_at(t, (r1.len() + r2.len() + r3.len()) as int, rl)
                &&& holds_at(t, (r1.len() + r2.len() + r3.len() + rl.len()) as int, ck)
                &&& t.len() == r1.len() + r2.len() + r3.len() + rl.len() + ck.len()
            }),
    {
        let t = snapshot(self);
        let r1 = record(header_tag(), header_values(self));
        let r2 = record(drops_tag(), drop_values(self));
        let r3 = record(hues_tag(), hue_values(self.hues));
        let rl = run_lines(self.cells);
        let ck = checksum_line(self.cells.len(), self.cells.len());
        assert(t.subrange(0, t.len() as int) =~= t);
        lemma_holds_at_concat(t, 0, r1 + r2 + r3 + rl, ck);
        lemma_holds_at_concat(t, 0, r1 + r2 + r3, rl);
        lemma_holds_at_concat(t, 0, r1 + r2, r3);
        lemma_holds_at_concat(t, 0, r1, r2);
    }

    /// The snapshot of a model that is in order reads back as that model,
    /// with the turn at the first source and a closing line whose counts
    /// agree.
    pub proof fn lemma_snapshot_reads_back(self)
        requires
            self.wf(),
            self.fits(),
        ensures
            parse_snapshot(snapshot(self)) == Some(
                Parsed { state: self.turn_reset(), written: self.cells.len(), cells: self.cells.len() },
            ),
    {
        let t = snapshot(self);
        let head = header_values(self);
        let drops = drop_values(self);
        let hues = hue_values(self.hues);
        let r1 = record(header_tag(), head);
        let r2 = record(drops_tag(), drops);
        let r3 = record(hues_tag(), hues);
        let rl = run_lines(self.cells);
        let ck = checksum_line(self.cells.len(), self.cells.len());
        let p1 = r1.len() as int;
        let p2 = p1 + r2.len();
        let p3 = p2 + r3.len();
        let p4 = p3 + rl.len();
        self.lemma_parts_stand();
        self.lemma_values_fit();
        self.lemma_state_from_values();
        assert(parse_record(t, 0, header_tag(), 7) == Some((head, p1))) by {
            lemma_parse_record(t, 0, header_tag(), head);
        }
        assert(parse_record(t, p1, drops_tag(), MAX_DROPS as nat) == Some((drops, p2))) by {
            lemma_parse_record(t, p1, drops_tag(), drops);
        }
        assert(parse_record(t, p2, hues_tag(), 24) == Some((hues, p3))) by {
            lemma_parse_record(t, p2, hues_tag(), hues);
        }
        assert(head[0] * head[1] == self.cells.len());
        assert(parse_runs(t, p3, head[0] * head[1]) == Some((self.cells, p4))) by {
            lemma_checksum_pieces();
            let tail = decimal(self.cells.len()) + checksum_of() + decimal(self.cells.len())
                + checksum_end();
            assert(ck =~= checksum_tag() + tail);
            lemma_holds_at_concat(t, p4, checksum_tag(), tail);
            lemma_holds_at_index(t, p4, checksum_tag(), 0);
            lemma_parse_runs(t, p3, self.cells, self.cells.len());
        }
        assert(parse_checksum(t, p4) == Some((self.cells.len(), self.cells.len()))) by {
            lemma_parse_checksum(t, p4, self.cells.len(), self.cells.len());
        }
    }
}

impl State {
    /// Models that differ in more than the turn have different snapshots.
    pub proof fn lemma_snapshot_tells_apart(self, other: State)
        requires
            self.wf(),
            self.fits(),
            other.wf(),
            other.fits(),
            snapshot(self) == snapshot(other),
        ensures
            self.turn_reset() == other.turn_reset(),
    {
        self.lemma_snapshot_reads_back();
        other.lemma_snapshot_reads_back();
    }
}

impl Model {
    /// Saving and loading gives the same model back: the snapshot of a
    /// model that is in order reads back as a model with the same table and
    /// cells, counters, sources, interval and palette, and a load into the
    /// model itself also leaves the turn where it was.
    pub proof fn lemma_round_trip(&self)
        requires
            self.wf(),
        ensures
            parse_snapshot(snapshot(self@)) matches Some(parsed) && parsed.state
                == self@.turn_reset() && parsed.written == parsed.cells && (State {
                ac: kept_turn(self@.ac, parsed.state.active_cells),
                ..parsed.state
            }) == self@,
    {
        assert(self@.cells.len() == self.cells.len());
        self@.lemma_snapshot_reads_back();
    }
}

} // verus!

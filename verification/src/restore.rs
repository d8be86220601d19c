//! Reading a snapshot back.
//!
//! The text is read from front to back, each piece where the one before it
//! ended. What is read has to be a model that is in order, or the model in
//! hand stays as it is. The closing line is read and handed back, but a
//! count that is off does not keep the model from being loaded.

use crate::cell::Cell;
use crate::decimal::{
    as_nats, expect, holds_at, is_digit, is_digit_byte, lemma_holds_at_index, parse_number, read_number,
    read_piece,
};
use crate::hues::{Hues, Rgba};
use crate::model::{untouched, Model, State, MAX_DROPS};
use crate::snapshot::{
    checksum_end, checksum_of, checksum_tag, comma, drops_tag, header_tag, hues_tag, newline,
    touched_mark, untouched_mark,
};
use vstd::prelude::*;
use vstd::string::StringSliceAdditionalSpecFns;

verus! {

/// Why a snapshot was not loaded.
#[derive(Clone, Copy, Debug, PartialEq, Eq, Structural)]
pub enum SnapshotError {
    /// The text is not a snapshot: a piece is missing or out of place, a
    /// number cannot be read or is too large, or there are more cells than
    /// the table has.
    Malformed,
    /// The text is a snapshot, but not of a model that is in order.
    Inconsistent,
}

/// What the closing line of a snapshot says.
#[derive(Clone, Copy, Debug, PartialEq, Eq, Structural)]
pub struct Checksum {
    /// The number of cells that were written, as the line has it.
    pub written: usize,
    /// The number of cells of the table, as the line has it.
    pub cells: usize,
}

impl Checksum {
    /// Do the two counts agree?
    pub fn holds(&self) -> (yes: bool)
        ensures
            yes == (self.written == self.cells),
    {
        self.written == self.cells
    }
}

/// What a snapshot holds: a model, with the turn at the first source, and
/// the two counts of its closing line.
pub struct Parsed {
    pub state: State,
    pub written: nat,
    pub cells: nat,
}

/// Reads `k` numbers, a comma before each.
pub open spec fn parse_fields(t: Seq<u8>, pos: int, k: nat) -> Option<(Seq<nat>, int)>
    decreases k,
{
    if k == 0 {
        Some((Seq::empty(), pos))
    } else {
        match parse_fields(t, pos, (k - 1) as nat) {
            None => None,
            Some((vals, p)) => match expect(t, p, comma()) {
                None => None,
                Some(p1) => match parse_number(t, p1) {
                    None => None,
                    Some((v, p2)) => Some((vals.push(v), p2)),
                },
            },
        }
    }
}

/// Reads a line that holds `tag` and `k` numbers.
pub open spec fn parse_record(t: Seq<u8>, pos: int, tag: Seq<u8>, k: nat) -> Option<
    (Seq<nat>, int),
> {
    match expect(t, pos, tag) {
        None => None,
        Some(p) => match parse_fields(t, p, k) {
            None => None,
            Some((vals, p1)) => match expect(t, p1, newline()) {
                None => None,
                Some(p2) => Some((vals, p2)),
            },
        },
    }
}

/// `k` cells that no grain has reached.
pub open spec fn untouched_run(k: nat) -> Seq<Cell> {
    Seq::new(k, |j: int| untouched())
}

/// The cells that a grain has reached and whose grain counts are `digits`.
pub open spec fn touched_run(digits: Seq<u8>) -> Seq<Cell> {
    Seq::new(digits.len(), |j: int| Cell { grains: (digits[j] - 48) as u8, borged: true })
}

/// From `from` up to `to` there are only digits.
pub open spec fn all_digits(t: Seq<u8>, from: int, to: int) -> bool {
    forall|j: int| from <= j < to ==> is_digit(#[trigger] t[j])
}

/// Reads the runs of cells that stand at `pos`, as long as a line starts
/// with a digit. The runs may hold `room` cells in all.
pub open spec fn parse_runs(t: Seq<u8>, pos: int, room: nat) -> Option<(Seq<Cell>, int)>
    decreases t.len() - pos,
{
    if 0 <= pos < t.len() && is_digit(t[pos]) {
        match parse_number(t, pos) {
            None => None,
            Some((k, p)) => if k > room || p <= pos {
                None
            } else if holds_at(t, p, untouched_mark()) {
                match parse_runs(t, p + 3, (room - k) as nat) {
                    None => None,
                    Some((rest, end)) => Some((untouched_run(k) + rest, end)),
                }
            } else if holds_at(t, p, touched_mark()) && p + 3 + k < t.len() && all_digits(
                t,
                p + 3,
                p + 3 + k,
            ) && t[p + 3 + k] == 10 {
                match parse_runs(t, p + 4 + k, (room - k) as nat) {
                    None => None,
                    Some((rest, end)) => Some(
                        (touched_run(t.subrange(p + 3, p + 3 + k)) + rest, end),
                    ),
                }
            } else {
                None
            },
        }
    } else {
        Some((Seq::empty(), pos))
    }
}

/// Reads the closing line, with which the text ends, but for the end of
/// the line that may follow it.
pub open spec fn parse_checksum(t: Seq<u8>, pos: int) -> Option<(nat, nat)> {
    match expect(t, pos, checksum_tag()) {
        None => None,
        Some(p0) => match parse_number(t, p0) {
            None => None,
            Some((written, p1)) => match expect(t, p1, checksum_of()) {
                None => None,
                Some(p2) => match parse_number(t, p2) {
                    None => None,
                    Some((cells, p3)) => match expect(t, p3, checksum_end()) {
                        None => None,
                        Some(p4) => if p4 == t.len() || (p4 + 1 == t.len() && t[p4] == 10) {
                            Some((written, cells))
                        } else {
                            None
                        },
                    },
                },
            },
        },
    }
}

/// The colour whose channels stand in `v` from `k` on.
pub open spec fn rgba_at(v: Seq<nat>, k: int) -> Rgba {
    Rgba { r: v[k] as u8, g: v[k + 1] as u8, b: v[k + 2] as u8, a: v[k + 3] as u8 }
}

/// The palette whose channels are `v`.
pub open spec fn hues_from(v: Seq<nat>) -> Hues {
    Hues {
        untouched: rgba_at(v, 0),
        zero_grains: rgba_at(v, 4),
        one_grain: rgba_at(v, 8),
        two_grains: rgba_at(v, 12),
        three_grains: rgba_at(v, 16),
        four_grains: rgba_at(v, 20),
    }
}

/// Every number is one that a channel can hold.
pub open spec fn all_channels(v: Seq<nat>) -> bool {
    forall|k: int| 0 <= k < v.len() ==> #[trigger] v[k] <= 255
}

/// The model that the numbers of the three records and the cells make.
pub open spec fn state_from(head: Seq<nat>, drops: Seq<nat>, hues: Seq<nat>, cells: Seq<Cell>) -> State {
    State {
        width: head[0],
        height: head[1],
        cells,
        total_grains: head[2],
        lost_grains: head[3],
        drop_cells: Seq::new(drops.len(), |k: int| drops[k] as usize),
        ac: 0,
        active_cells: head[5],
        hues: hues_from(hues),
        interval: head[4],
        avalanche: head[6],
    }
}

/// Reads a snapshot: the header, the sources, the palette, the cells of
/// the table and the closing line.
pub open spec fn parse_snapshot(t: Seq<u8>) -> Option<Parsed> {
    match parse_record(t, 0, header_tag(), 7) {
        None => None,
        Some((head, p1)) => match parse_record(t, p1, drops_tag(), MAX_DROPS as nat) {
            None => None,
            Some((drops, p2)) => match parse_record(t, p2, hues_tag(), 24) {
                None => None,
                Some((hues, p3)) => if !all_channels(hues) || head[0] * head[1] > usize::MAX {
                    None
                } else {
                    match parse_runs(t, p3, head[0] * head[1]) {
                        None => None,
                        Some((cells, p4)) => match parse_checksum(t, p4) {
                            None => None,
                            Some((written, claimed)) => Some(
                                Parsed {
                                    state: state_from(head, drops, hues, cells),
                                    written,
                                    cells: claimed,
                                },
                            ),
                        },
                    }
                },
            },
        }
    }
}

/// The turn after a load: it stays where it was if that is still a source.
pub open spec fn kept_turn(ac: nat, active_cells: nat) -> nat {
    if ac < active_cells {
        ac
    } else {
        0
    }
}

/// Once a field cannot be read, no longer row of fields can.
pub proof fn lemma_fields_fail(t: Seq<u8>, pos: int, j: nat, k: nat)
    requires
        j <= k,
        parse_fields(t, pos, j) is None,
    ensures
        parse_fields(t, pos, k) is None,
    decreases k,
{
    if j < k {
        lemma_fields_fail(t, pos, j, (k - 1) as nat);
    }
}

/// A piece of one byte stands where that byte stands.
pub proof fn lemma_holds_one(t: Seq<u8>, pos: int, b: u8)
    requires
        0 <= pos,
    ensures
        holds_at(t, pos, seq![b]) == (pos < t.len() && t[pos] == b),
{
    if pos < t.len() && t[pos] == b {
        assert(t.subrange(pos, pos + 1) =~= seq![b]);
    }
    if holds_at(t, pos, seq![b]) {
        lemma_holds_at_index(t, pos, seq![b], 0);
    }
}

/// A piece of three bytes stands where those bytes stand.
pub proof fn lemma_holds_three(t: Seq<u8>, pos: int, a: u8, b: u8, c: u8)
    requires
        0 <= pos,
    ensures
        holds_at(t, pos, seq![a, b, c]) == (pos + 3 <= t.len() && t[pos] == a && t[pos + 1] == b
            && t[pos + 2] == c),
{
    if pos + 3 <= t.len() && t[pos] == a && t[pos + 1] == b && t[pos + 2] == c {
        assert(t.subrange(pos, pos + 3) =~= seq![a, b, c]);
    }
    if holds_at(t, pos, seq![a, b, c]) {
        lemma_holds_at_index(t, pos, seq![a, b, c], 0);
        lemma_holds_at_index(t, pos, seq![a, b, c], 1);
        lemma_holds_at_index(t, pos, seq![a, b, c], 2);
    }
}

/// Reads `k` numbers, a comma before each.
pub fn read_fields(text: &[u8], pos: usize, k: usize) -> (read: Option<(Vec<usize>, usize)>)
    requires
        pos <= text.len(),
    ensures
        match read {
            Some((vals, end)) => {
                &&& parse_fields(text@, pos as int, k as nat) == Some((as_nats(vals@), end as int))
                &&& vals.len() == k
                &&& end <= text.len()
            },
            None => parse_fields(text@, pos as int, k as nat) is None,
        },
{
    let mut vals: Vec<usize> = Vec::new();
    let mut p: usize = pos;
    let mut i: usize = 0;
    proof {
        assert(as_nats(vals@) =~= Seq::<nat>::empty());
    }
    while i < k
        invariant
            i <= k,
            p <= text.len(),
            vals.len() == i,
            parse_fields(text@, pos as int, i as nat) == Some((as_nats(vals@), p as int)),
        decreases k - i,
    {
        proof {
            lemma_holds_one(text@, p as int, 44u8);
        }
        if p >= text.len() || text[p] != 44u8 {
            proof {
                lemma_fields_fail(text@, pos as int, (i + 1) as nat, k as nat);
            }
            return None;
        }
        match read_number(text, p + 1) {
            None => {
                proof {
                    lemma_fields_fail(text@, pos as int, (i + 1) as nat, k as nat);
                }
                return None;
            },
            Some((v, end)) => {
                let ghost before = vals@;
                vals.push(v);
                proof {
                    assert(as_nats(vals@) =~= as_nats(before).push(v as nat));
                }
                p = end;
            },
        }
        i = i + 1;
    }
    Some((vals, p))
}

/// Reads a line that holds `tag` and `k` numbers.
pub fn read_record(text: &[u8], pos: usize, tag: &str, k: usize) -> (read: Option<
    (Vec<usize>, usize),
>)
    requires
        pos <= text.len(),
    ensures
        match read {
            Some((vals, end)) => {
                &&& parse_record(text@, pos as int, tag.spec_bytes(), k as nat) == Some(
                    (as_nats(vals@), end as int),
                )
                &&& vals.len() == k
                &&& end <= text.len()
            },
            None => parse_record(text@, pos as int, tag.spec_bytes(), k as nat) is None,
        },
{
    match read_piece(text, pos, tag.as_bytes()) {
        None => None,
        Some(p) => match read_fields(text, p, k) {
            None => None,
            Some((vals, p1)) => {
                proof {
                    lemma_holds_one(text@, p1 as int, 10u8);
                }
                if p1 < text.len() && text[p1] == 10u8 {
                    Some((vals, p1 + 1))
                } else {
                    None
                }
            },
        },
    }
}

/// Reads the grain counts of `k` cells that a grain has reached, one digit
/// each, and appends the cells.
fn read_grains(text: &[u8], from: usize, k: usize, cells: &mut Vec<Cell>) -> (ok: bool)
    requires
        from + k <= text.len(),
    ensures
        ok == all_digits(text@, from as int, from + k),
        ok ==> final(cells)@ == old(cells)@ + touched_run(text@.subrange(from as int, from + k)),
{
    let mut j: usize = 0;
    proof {
        assert(cells@ =~= old(cells)@ + touched_run(text@.subrange(from as int, from + j)));
    }
    while j < k
        invariant
            j <= k,
            from + k <= text.len(),
            all_digits(text@, from as int, from + j),
            cells@ == old(cells)@ + touched_run(text@.subrange(from as int, from + j)),
        decreases k - j,
    {
        let b = text[from + j];
        if !is_digit_byte(b) {
            proof {
                assert(!is_digit(text@[from + j]));
            }
            return false;
        }
        cells.push(Cell { grains: b - 48, borged: true });
        j = j + 1;
        proof {
            assert(cells@ =~= old(cells)@ + touched_run(text@.subrange(from as int, from + j)));
        }
    }
    true
}

/// Reads the runs of cells that stand at `pos`.
pub fn read_runs(text: &[u8], pos: usize, room: usize) -> (read: Option<(Vec<Cell>, usize)>)
    requires
        pos <= text.len(),
    ensures
        match read {
            Some((cells, end)) => {
                &&& parse_runs(text@, pos as int, room as nat) == Some((cells@, end as int))
                &&& cells.len() <= room
                &&& end <= text.len()
            },
            None => parse_runs(text@, pos as int, room as nat) is None,
        },
{
    let ghost t = text@;
    let mut cells: Vec<Cell> = Vec::new();
    let mut p: usize = pos;
    let mut left: usize = room;
    proof {
        match parse_runs(t, pos as int, room as nat) {
            None => {},
            Some((rest, end)) => {
                assert(cells@ + rest =~= rest);
            },
        }
    }
    while p < text.len() && is_digit_byte(text[p])
        invariant
            t == text@,
            p <= text.len(),
            cells.len() + left == room,
            parse_runs(t, pos as int, room as nat) == match parse_runs(t, p as int, left as nat) {
                None => None::<(Seq<Cell>, int)>,
                Some((rest, end)) => Some((cells@ + rest, end)),
            },
        decreases text.len() - p,
    {
        let ghost done = cells@;
        match read_number(text, p) {
            None => {
                return None;
            },
            Some((k, q)) => {
                if k > left {
                    return None;
                }
                proof {
                    lemma_holds_three(t, q as int, 44u8, 102u8, 10u8);
                    lemma_holds_three(t, q as int, 44u8, 116u8, 44u8);
                }
                if 3 <= text.len() - q && text[q] == 44u8 && text[q + 1] == 102u8 && text[q + 2]
                    == 10u8 {
                    let mut j: usize = 0;
                    while j < k
                        invariant
                            j <= k <= left,
                            done.len() + left == room,
                            cells@ == done + untouched_run(j as nat),
                        decreases k - j,
                    {
                        cells.push(Cell { grains: 0, borged: false });
                        j = j + 1;
                        proof {
                            assert(cells@ =~= done + untouched_run(j as nat));
                        }
                    }
                    proof {
                        match parse_runs(t, q + 3, (left - k) as nat) {
                            None => {},
                            Some((rest, end)) => {
                                assert(cells@ + rest =~= done + (untouched_run(k as nat) + rest));
                            },
                        }
                    }
                    p = q + 3;
                    left = left - k;
                } else if 3 <= text.len() - q && text[q] == 44u8 && text[q + 1] == 116u8 && text[q
                    + 2] == 44u8 {
                    if k >= text.len() - q - 3 {
                        return None;
                    }
                    let from: usize = q + 3;
                    if !read_grains(text, from, k, &mut cells) {
                        return None;
                    }
                    if text[from + k] != 10u8 {
                        return None;
                    }
                    proof {
                        match parse_runs(t, q + 4 + k, (left - k) as nat) {
                            None => {},
                            Some((rest, end)) => {
                                assert(cells@ + rest =~= done + (touched_run(
                                    t.subrange(q + 3, q + 3 + k),
                                ) + rest));
                            },
                        }
                    }
                    p = from + k + 1;
                    left = left - k;
                } else {
                    return None;
                }
            },
        }
    }
    proof {
        assert(cells@ + Seq::<Cell>::empty() =~= cells@);
    }
    Some((cells, p))
}

/// Reads the closing line.
pub fn read_checksum(text: &[u8], pos: usize) -> (read: Option<Checksum>)
    requires
        pos <= text.len(),
    ensures
        match read {
            Some(sum) => parse_checksum(text@, pos as int) == Some(
                (sum.written as nat, sum.cells as nat),
            ),
            None => parse_checksum(text@, pos as int) is None,
        },
{
    match read_piece(text, pos, "Checksum: ".as_bytes()) {
        None => None,
        Some(p0) => match read_number(text, p0) {
            None => None,
            Some((written, p1)) => match read_piece(text, p1, " of ".as_bytes()) {
                None => None,
                Some(p2) => match read_number(text, p2) {
                    None => None,
                    Some((cells, p3)) => match read_piece(text, p3, " cells recorded".as_bytes()) {
                        None => None,
                        Some(p4) => {
                            if p4 == text.len() || (p4 + 1 == text.len() && text[p4] == 10u8) {
                                Some(Checksum { written, cells })
                            } else {
                                None
                            }
                        },
                    },
                },
            },
        }
    }
}

/// Are all numbers such that a channel can hold them?
fn channels_fit(vals: &Vec<usize>) -> (ok: bool)
    ensures
        ok == all_channels(as_nats(vals@)),
{
    let mut k: usize = 0;
    while k < vals.len()
        invariant
            k <= vals.len(),
            forall|j: int| 0 <= j < k ==> #[trigger] as_nats(vals@)[j] <= 255,
        decreases vals.len() - k,
    {
        if vals[k] > 255 {
            assert(as_nats(vals@)[k as int] > 255);
            return false;
        }
        k = k + 1;
    }
    true
}

/// The colour whose channels stand in `vals` from `k` on.
fn color_at(vals: &Vec<usize>, k: usize) -> (color: Rgba)
    requires
        k + 4 <= vals.len(),
        all_channels(as_nats(vals@)),
    ensures
        color == rgba_at(as_nats(vals@), k as int),
{
    proof {
        assert(as_nats(vals@)[k as int] <= 255);
        assert(as_nats(vals@)[k + 1] <= 255);
        assert(as_nats(vals@)[k + 2] <= 255);
        assert(as_nats(vals@)[k + 3] <= 255);
    }
    Rgba { r: vals[k] as u8, g: vals[k + 1] as u8, b: vals[k + 2] as u8, a: vals[k + 3] as u8 }
}

impl Model {
    /// Loads a snapshot in place of the model. The model stays as it is
    /// unless the text is a snapshot of a model that is in order. The turn
    /// stays with the source that had it, if the loaded model has that many
    /// sources, and goes to the first otherwise. What comes back is what the
    /// closing line says, whether or not its counts agree.
    pub fn uncurate(&mut self, text: &[u8]) -> (loaded: Result<Checksum, SnapshotError>)
        ensures
            match loaded {
                Ok(sum) => {
                    &&& parse_snapshot(text@) matches Some(parsed)
                    &&& parsed.state.wf()
                    &&& final(self).wf()
                    &&& final(self)@ == (State {
                        ac: kept_turn(old(self).ac as nat, parsed.state.active_cells),
                        ..parsed.state
                    })
                    &&& sum.written == parsed.written
                    &&& sum.cells == parsed.cells
                },
                Err(SnapshotError::Malformed) => {
                    &&& parse_snapshot(text@) is None
                    &&& *final(self) == *old(self)
                },
                Err(SnapshotError::Inconsistent) => {
                    &&& parse_snapshot(text@) matches Some(parsed)
                    &&& !parsed.state.wf()
                    &&& *final(self) == *old(self)
                },
            },
    {
        let (head, p1) = match read_record(text, 0, "lakhesis,alpha", 7) {
            None => {
                return Err(SnapshotError::Malformed);
            },
            Some(read) => read,
        };
        let (drops, p2) = match read_record(text, p1, "drops", MAX_DROPS) {
            None => {
                return Err(SnapshotError::Malformed);
            },
            Some(read) => read,
        };
        let (palette, p3) = match read_record(text, p2, "hues", 24) {
            None => {
                return Err(SnapshotError::Malformed);
            },
            Some(read) => read,
        };
        if !channels_fit(&palette) {
            return Err(SnapshotError::Malformed);
        }
        let room = match head[0].checked_mul(head[1]) {
            None => {
                return Err(SnapshotError::Malformed);
            },
            Some(room) => room,
        };
        let (cells, p4) = match read_runs(text, p3, room) {
            None => {
                return Err(SnapshotError::Malformed);
            },
            Some(read) => read,
        };
        let sum = match read_checksum(text, p4) {
            None => {
                return Err(SnapshotError::Malformed);
            },
            Some(sum) => sum,
        };
        let mut drop_cells: [usize; MAX_DROPS] = [0usize; MAX_DROPS];
        let mut k: usize = 0;
        while k < MAX_DROPS
            invariant
                k <= MAX_DROPS,
                drops.len() == MAX_DROPS,
                forall|j: int| 0 <= j < k ==> drop_cells@[j] == drops@[j],
            decreases MAX_DROPS - k,
        {
            drop_cells[k] = drops[k];
            k = k + 1;
        }
        let loaded = Model {
            cells,
            width: head[0],
            height: head[1],
            total_grains: head[2],
            lost_grains: head[3],
            drop_cells,
            ac: 0,
            active_cells: head[5],
            hues: Hues {
                untouched: color_at(&palette, 0),
                zero_grains: color_at(&palette, 4),
                one_grain: color_at(&palette, 8),
                two_grains: color_at(&palette, 12),
                three_grains: color_at(&palette, 16),
                four_grains: color_at(&palette, 20),
            },
            interval: head[4],
            avalanche: head[6],
        };
        proof {
            let parsed = parse_snapshot(text@).unwrap();
            assert(loaded@.drop_cells =~= parsed.state.drop_cells);
            assert(loaded@ == parsed.state);
        }
        if !loaded.is_wf() {
            return Err(SnapshotError::Inconsistent);
        }
        let turn = if self.ac < loaded.active_cells {
            self.ac
        } else {
            0
        };
        *self = loaded;
        self.ac = turn;
        Ok(sum)
    }
}

} // verus!

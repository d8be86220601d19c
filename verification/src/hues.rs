//! The palette: one colour for each state in which a cell can be shown.

use crate::cell::Cell;
use vstd::prelude::*;

verus! {

/// A colour as four 8-bit channels, the form in which pixels are stored.
#[derive(Clone, Copy, Debug, PartialEq, Eq, Structural)]
pub struct Rgba {
    pub r: u8,
    pub g: u8,
    pub b: u8,
    pub a: u8,
}

/// The colours of the six states of a cell.
#[derive(Clone, Copy, Debug, PartialEq, Eq, Structural)]
pub struct Hues {
    /// Never reached by a grain.
    pub untouched: Rgba,
    /// Reached, and empty again.
    pub zero_grains: Rgba,
    pub one_grain: Rgba,
    pub two_grains: Rgba,
    pub three_grains: Rgba,
    /// Four grains or more: seen only where cells topple at a higher count.
    pub four_grains: Rgba,
}

/// Fully transparent black.
pub open spec fn blank() -> Rgba {
    Rgba { r: 0, g: 0, b: 0, a: 0 }
}

/// Opaque red.
pub open spec fn red() -> Rgba {
    Rgba { r: 255, g: 0, b: 0, a: 255 }
}

/// The palette a new model starts with: blue, green and yellow for zero, one
/// and two grains, and nothing for three, so that the threads of lower cells
/// stand out against the large areas of three-grain cells.
pub open spec fn default_hues() -> Hues {
    Hues {
        untouched: blank(),
        zero_grains: Rgba { r: 0, g: 119, b: 242, a: 255 },
        one_grain: Rgba { r: 0, g: 226, b: 48, a: 255 },
        two_grains: Rgba { r: 252, g: 249, b: 0, a: 255 },
        three_grains: blank(),
        four_grains: Rgba { r: 229, g: 40, b: 56, a: 255 },
    }
}

/// The palette made of twelve drawn channel values: opaque colours for zero
/// to three grains, red, green and blue of each in the order drawn, between
/// a blank background and red for four grains.
pub open spec fn hues_from_draws(d: Seq<u8>) -> Hues {
    Hues {
        untouched: blank(),
        zero_grains: Rgba { r: d[0], g: d[1], b: d[2], a: 255 },
        one_grain: Rgba { r: d[3], g: d[4], b: d[5], a: 255 },
        two_grains: Rgba { r: d[6], g: d[7], b: d[8], a: 255 },
        three_grains: Rgba { r: d[9], g: d[10], b: d[11], a: 255 },
        four_grains: red(),
    }
}

/// Calls `macroquad::rand::srand`, which seeds the generator that
/// [`draw_between`] draws from. Nothing is claimed of it.
#[verifier::external_body]
pub(crate) fn seed_generator(seed: u64) {
    macroquad::rand::srand(seed);
}

/// Calls `macroquad::rand::gen_range` at type `u8`. The generator scales a
/// fraction in `[0, 1)` to the span from `low` to `high` and cuts off what
/// is behind the point, so what is drawn lies from `low` up to, but not at,
/// `high`. Which value it is depends on the draws before it.
#[verifier::external_body]
pub(crate) fn draw_between(low: u8, high: u8) -> (drawn: u8)
    requires
        low < high,
    ensures
        low <= drawn < high,
{
    macroquad::rand::gen_range::<u8>(low, high)
}

impl Hues {
    /// The starting palette.
    pub fn default() -> (hues: Hues)
        ensures
            hues == default_hues(),
    {
        Hues {
            untouched: Rgba { r: 0, g: 0, b: 0, a: 0 },
            zero_grains: Rgba { r: 0, g: 119, b: 242, a: 255 },
            one_grain: Rgba { r: 0, g: 226, b: 48, a: 255 },
            two_grains: Rgba { r: 252, g: 249, b: 0, a: 255 },
            three_grains: Rgba { r: 0, g: 0, b: 0, a: 0 },
            four_grains: Rgba { r: 229, g: 40, b: 56, a: 255 },
        }
    }

    /// The colour in which `cell` is shown.
    pub open spec fn shade_of(self, cell: Cell) -> Rgba {
        if cell.grains == 0 {
            if cell.borged {
                self.zero_grains
            } else {
                self.untouched
            }
        } else if cell.grains == 1 {
            self.one_grain
        } else if cell.grains == 2 {
            self.two_grains
        } else if cell.grains == 3 {
            self.three_grains
        } else {
            self.four_grains
        }
    }

    /// Picks the colour for a cell by its grain count; an empty cell is told
    /// apart by whether a grain has ever reached it.
    pub fn shade(&self, cell: Cell) -> (color: Rgba)
        ensures
            color == self.shade_of(cell),
    {
        match cell.grains {
            0 => {
                if cell.borged {
                    self.zero_grains
                } else {
                    self.untouched
                }
            },
            1 => self.one_grain,
            2 => self.two_grains,
            3 => self.three_grains,
            _ => self.four_grains,
        }
    }

    /// Builds a palette from twelve channel values.
    pub fn from_draws(draws: &[u8; 12]) -> (hues: Hues)
        ensures
            hues == hues_from_draws(draws@),
    {
        Hues {
            untouched: Rgba { r: 0, g: 0, b: 0, a: 0 },
            zero_grains: Rgba { r: draws[0], g: draws[1], b: draws[2], a: 255 },
            one_grain: Rgba { r: draws[3], g: draws[4], b: draws[5], a: 255 },
            two_grains: Rgba { r: draws[6], g: draws[7], b: draws[8], a: 255 },
            three_grains: Rgba { r: draws[9], g: draws[10], b: draws[11], a: 255 },
            four_grains: Rgba { r: 255, g: 0, b: 0, a: 255 },
        }
    }

    /// A palette of random opaque colours for zero to three grains, drawn
    /// from the generator after seeding it with `seed`.
    pub fn random(seed: u64) -> (hues: Hues)
        ensures
            exists|d: Seq<u8>|
                d.len() == 12 && (forall|k: int| 0 <= k < 12 ==> d[k] < 255) && hues
                    == #[trigger] hues_from_draws(d),
    {
        seed_generator(seed);
        let mut draws: [u8; 12] = [0u8; 12];
        let mut k: usize = 0;
        while k < 12
            invariant
                k <= 12,
                forall|j: int| 0 <= j < 12 ==> draws@[j] < 255,
            decreases 12 - k,
        {
            draws[k] = draw_between(0, 255);
            k = k + 1;
        }
        Hues::from_draws(&draws)
    }
}

} // verus!

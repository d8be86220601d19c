use lakhesis::{Cell, Hues, Model, Rgba};

const BLANK: Rgba = Rgba { r: 0, g: 0, b: 0, a: 0 };

fn palette() -> Hues {
    Hues {
        untouched: Rgba { r: 9, g: 9, b: 9, a: 9 },
        zero_grains: Rgba { r: 10, g: 0, b: 0, a: 255 },
        one_grain: Rgba { r: 11, g: 0, b: 0, a: 255 },
        two_grains: Rgba { r: 12, g: 0, b: 0, a: 255 },
        three_grains: Rgba { r: 13, g: 0, b: 0, a: 255 },
        four_grains: Rgba { r: 14, g: 0, b: 0, a: 255 },
    }
}

#[test]
fn a_picture_has_a_pixel_for_each_cell_but_the_last_row_and_column() {
    let mut model = Model::with_size(4, 3).unwrap();
    model.hues = palette();
    for (i, grains) in [0u8, 1, 2, 3, 0, 0, 1, 1, 2, 2, 3, 3].iter().enumerate() {
        model.cells[i] = Cell { grains: *grains, borged: i != 4 };
    }
    let h = palette();
    let pixels = model.paint(0, 0, 4, 3);
    let expected = vec![
        h.zero_grains, h.one_grain, h.two_grains, BLANK,
        h.untouched, h.zero_grains, h.one_grain, BLANK,
        BLANK, BLANK, BLANK, BLANK,
    ];
    assert_eq!(pixels, expected);
}

#[test]
fn a_picture_can_start_anywhere_on_the_table() {
    let mut model = Model::with_size(4, 3).unwrap();
    model.hues = palette();
    for (i, grains) in [0u8, 1, 2, 3, 0, 0, 1, 1, 2, 2, 3, 3].iter().enumerate() {
        model.cells[i] = Cell { grains: *grains, borged: true };
    }
    let h = palette();
    let pixels = model.paint(2, 1, 3, 3);
    let expected = vec![
        h.one_grain, h.one_grain, BLANK,
        h.three_grains, h.three_grains, BLANK,
        BLANK, BLANK, BLANK,
    ];
    assert_eq!(pixels, expected);
    let pixels = model.paint(3, 2, 2, 2);
    assert_eq!(pixels, vec![h.three_grains, BLANK, BLANK, BLANK]);
}

#[test]
fn the_smallest_picture_is_one_blank_pixel() {
    let model = Model::with_size(4, 3).unwrap();
    assert_eq!(model.paint(0, 0, 1, 1), vec![BLANK]);
    assert_eq!(model.paint(4, 3, 1, 1), vec![BLANK]);
}

#[test]
fn the_extent_can_be_painted() {
    let mut model = Model::with_size(64, 48).unwrap();
    let center = model.calc_center_idx();
    for _ in 0..500 {
        model.add_grain(center);
    }
    let (left, top, width, height) = model.find_extent();
    let pixels = model.paint(left, top, width, height);
    assert_eq!(pixels.len(), width as usize * height as usize);
    for row in 0..height as usize - 1 {
        for column in 0..width as usize - 1 {
            let idx = model.xy_to_idx(column + left as usize, row + top as usize);
            assert_eq!(pixels[row * width as usize + column], model.hues.shade(model.cells[idx]));
        }
    }
}

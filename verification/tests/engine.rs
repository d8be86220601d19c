use lakhesis::{Cell, Model};

fn grains(model: &Model) -> Vec<u8> {
    model.cells.iter().map(|c| c.grains).collect()
}

fn on_table(model: &Model) -> usize {
    model.cells.iter().map(|c| c.grains as usize).sum()
}

/// Topples cells in index order until none holds four grains, and counts
/// the topples and the grains that leave the table.
fn relax(width: usize, height: usize, start: &[u32]) -> (Vec<u32>, usize, usize, Vec<usize>) {
    let mut g = start.to_vec();
    let mut topples = 0;
    let mut lost = 0;
    let mut fired = vec![0usize; g.len()];
    loop {
        let mut any = false;
        for c in 0..g.len() {
            while g[c] >= 4 {
                any = true;
                g[c] -= 4;
                topples += 1;
                fired[c] += 1;
                let (x, y) = (c % width, c / width);
                if y > 0 { g[c - width] += 1 } else { lost += 1 }
                if y + 1 < height { g[c + width] += 1 } else { lost += 1 }
                if x > 0 { g[c - 1] += 1 } else { lost += 1 }
                if x + 1 < width { g[c + 1] += 1 } else { lost += 1 }
            }
        }
        if !any {
            return (g, topples, lost, fired);
        }
    }
}

#[test]
fn four_grains_on_the_center_of_a_5_by_5_table() {
    let mut model = Model::with_size(5, 5).unwrap();
    let center = model.calc_center_idx();
    assert_eq!(center, 12);
    for dropped in 1..=3 {
        model.add_grain(center);
        assert_eq!(model.avalanche, 0);
        assert_eq!(model.cells[center], Cell { grains: dropped, borged: true });
        assert_eq!(model.total_grains, dropped as usize);
        assert_eq!(model.lost_grains, 0);
    }
    model.add_grain(center);
    assert_eq!(model.avalanche, 1);
    assert_eq!(model.total_grains, 4);
    assert_eq!(model.lost_grains, 0);
    assert_eq!(model.cells[center], Cell { grains: 0, borged: true });
    for neighbor in [7, 17, 11, 13] {
        assert_eq!(model.cells[neighbor], Cell { grains: 1, borged: true });
    }
    for (i, cell) in model.cells.iter().enumerate() {
        if ![7, 11, 12, 13, 17].contains(&i) {
            assert_eq!(*cell, Cell { grains: 0, borged: false });
        }
    }
    assert!(model.is_wf());
}

#[test]
fn a_corner_cell_sends_two_grains_off_the_table() {
    let mut model = Model::with_size(6, 6).unwrap();
    for _ in 0..3 {
        model.add_grain(0);
        assert_eq!(model.lost_grains, 0);
    }
    model.add_grain(0);
    assert_eq!(model.lost_grains, 2);
    assert_eq!(model.avalanche, 1);
    assert_eq!(model.cells[0], Cell { grains: 0, borged: true });
    assert_eq!(model.cells[1], Cell { grains: 1, borged: true });
    assert_eq!(model.cells[6], Cell { grains: 1, borged: true });
    assert_eq!(on_table(&model) + model.lost_grains, model.total_grains);
}

#[test]
fn every_corner_and_edge_loses_what_has_no_cell_to_go_to() {
    // corners lose two, edge cells one, inner cells none
    for (source, lost) in [(0, 2), (3, 2), (12, 2), (15, 2), (1, 1), (4, 1), (7, 1), (14, 1), (5, 0)] {
        let mut model = Model::with_size(4, 4).unwrap();
        for _ in 0..4 {
            model.add_grain(source);
        }
        assert_eq!(model.lost_grains, lost, "source {}", source);
        assert_eq!(model.avalanche, 1);
        assert_eq!(on_table(&model), 4 - lost);
    }
}

#[test]
fn a_single_cell_table_loses_all_four() {
    let mut model = Model::with_size(1, 1).unwrap();
    for _ in 0..4 {
        model.add_grain(0);
    }
    assert_eq!(model.cells[0], Cell { grains: 0, borged: true });
    assert_eq!(model.lost_grains, 4);
    assert_eq!(model.avalanche, 1);
}

#[test]
fn a_table_of_one_column_has_no_side_neighbours() {
    let mut model = Model::with_size(1, 3).unwrap();
    for _ in 0..4 {
        model.add_grain(1);
    }
    assert_eq!(grains(&model), vec![1, 0, 1]);
    assert_eq!(model.lost_grains, 2);
}

#[test]
fn a_table_of_one_row_has_no_neighbours_above_or_below() {
    let mut model = Model::with_size(3, 1).unwrap();
    for _ in 0..4 {
        model.add_grain(1);
    }
    assert_eq!(grains(&model), vec![1, 0, 1]);
    assert_eq!(model.lost_grains, 2);
}

#[test]
fn a_topple_can_set_off_its_neighbours() {
    // 3 3 3 in a row: the grain on the middle cell topples it, and its two
    // grains to the sides topple both ends.
    let mut model = Model::with_size(3, 1).unwrap();
    for cell in 0..3 {
        for _ in 0..3 {
            model.add_grain(cell);
        }
    }
    assert_eq!(grains(&model), vec![3, 3, 3]);
    assert_eq!(model.total_grains, 9);
    model.add_grain(1);
    let (rest, topples, lost, _) = relax(3, 1, &[3, 4, 3]);
    assert_eq!(rest, vec![0, 2, 0]);
    assert_eq!(grains(&model), vec![0, 2, 0]);
    assert_eq!(model.avalanche, topples);
    assert_eq!(model.avalanche, 3);
    assert_eq!(model.lost_grains, lost);
    assert_eq!(model.lost_grains, 8);
    assert_eq!(model.total_grains, 10);
}

#[test]
fn every_grain_is_on_the_table_or_lost_and_every_cell_stays_stable() {
    let mut model = Model::with_size(9, 7).unwrap();
    let center = model.calc_center_idx();
    for dropped in 1..=3_000usize {
        model.add_grain(center);
        assert_eq!(model.total_grains, dropped);
        assert_eq!(on_table(&model) + model.lost_grains, model.total_grains);
        assert!(model.cells.iter().all(|c| c.grains < 4));
        assert!(model.cells.iter().all(|c| c.borged || c.grains == 0));
    }
    assert!(model.lost_grains > 0);
    assert!(model.is_wf());
}

#[test]
fn the_pile_comes_to_rest_where_any_order_of_topples_would_bring_it() {
    let (width, height) = (8usize, 6usize);
    let mut model = Model::with_size(width, height).unwrap();
    let sources = [0usize, 19, 27, 47, 20, 21];
    let mut state = 12345u64;
    for _ in 0..4_000 {
        state = state.wrapping_mul(6364136223846793005).wrapping_add(1442695040888963407);
        let source = sources[(state >> 33) as usize % sources.len()];
        let mut start: Vec<u32> = model.cells.iter().map(|c| c.grains as u32).collect();
        let touched_before: Vec<bool> = model.cells.iter().map(|c| c.borged).collect();
        let lost_before = model.lost_grains;
        start[source] += 1;
        let (rest, topples, lost, fired) = relax(width, height, &start);
        model.add_grain(source);
        let now: Vec<u32> = model.cells.iter().map(|c| c.grains as u32).collect();
        assert_eq!(now, rest);
        assert_eq!(model.avalanche, topples);
        assert_eq!(model.lost_grains, lost_before + lost);
        for i in 0..width * height {
            let (x, y) = (i % width, i / width);
            let sent = (y > 0 && fired[i - width] > 0)
                || (y + 1 < height && fired[i + width] > 0)
                || (x > 0 && fired[i - 1] > 0)
                || (x + 1 < width && fired[i + 1] > 0);
            assert_eq!(model.cells[i].borged, touched_before[i] || i == source || sent);
        }
    }
}

#[test]
fn a_cell_that_toppled_back_to_zero_still_counts_as_reached() {
    let mut model = Model::with_size(5, 5).unwrap();
    for _ in 0..4 {
        model.add_grain(12);
    }
    assert_eq!(model.cells[12].grains, 0);
    assert!(model.cells[12].borged);
    assert_eq!(model.cells[0].grains, 0);
    assert!(!model.cells[0].borged);
}

#[test]
fn a_large_avalanche_runs_without_deep_recursion() {
    // every cell at three grains: one more grain topples the whole table
    // many times over
    let (width, height) = (120usize, 120usize);
    let mut model = Model::with_size(width, height).unwrap();
    for cell in model.cells.iter_mut() {
        *cell = Cell { grains: 3, borged: true };
    }
    model.total_grains = 3 * width * height;
    assert!(model.is_wf());
    let start: Vec<u32> = model.cells.iter().map(|c| c.grains as u32).collect();
    let center = model.calc_center_idx();
    let mut with_grain = start.clone();
    with_grain[center] += 1;
    let (rest, topples, lost, _) = relax(width, height, &with_grain);
    model.add_grain(center);
    assert!(model.avalanche > 100_000);
    assert_eq!(model.avalanche, topples);
    assert_eq!(model.lost_grains, lost);
    let now: Vec<u32> = model.cells.iter().map(|c| c.grains as u32).collect();
    assert_eq!(now, rest);
    assert!(model.is_wf());
}

#[test]
fn a_grain_leaves_the_sources_and_the_palette_alone() {
    let mut model = Model::with_size(5, 5).unwrap();
    model.register_source(3).unwrap();
    model.register_source(9).unwrap();
    model.interval = 77;
    let before = model.clone();
    model.add_grain(24);
    assert_eq!(model.width, before.width);
    assert_eq!(model.height, before.height);
    assert_eq!(model.drop_cells, before.drop_cells);
    assert_eq!(model.active_cells, before.active_cells);
    assert_eq!(model.ac, before.ac);
    assert_eq!(model.hues, before.hues);
    assert_eq!(model.interval, 77);
}

#[test]
fn two_grains_end_the_same_whichever_is_dropped_first() {
    let mut base = Model::with_size(7, 6).unwrap();
    for round in 0..900 {
        base.add_grain([17, 24, 25, 10][round % 4]);
    }
    for a in 0..42 {
        for b in [0, 17, 24, 41] {
            let mut ab = base.clone();
            ab.add_grain(a);
            ab.add_grain(b);
            let mut ba = base.clone();
            ba.add_grain(b);
            ba.add_grain(a);
            assert_eq!(ab.cells, ba.cells);
            assert_eq!(ab.lost_grains, ba.lost_grains);
            assert_eq!(ab.total_grains, ba.total_grains);
        }
    }
}

#[test]
fn a_grain_on_a_cell_below_three_lies_where_it_falls() {
    let mut model = Model::with_size(4, 4).unwrap();
    for round in 0..60 {
        model.add_grain(round % 16);
    }
    for source in 0..16 {
        if model.cells[source].grains < 3 {
            let before = model.clone();
            let mut after = model.clone();
            after.add_grain(source);
            assert_eq!(after.avalanche, 0);
            assert_eq!(after.lost_grains, before.lost_grains);
            for i in 0..16 {
                if i == source {
                    assert_eq!(after.cells[i].grains, before.cells[i].grains + 1);
                    assert!(after.cells[i].borged);
                } else {
                    assert_eq!(after.cells[i], before.cells[i]);
                }
            }
        }
    }
}

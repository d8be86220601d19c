use lakhesis::{Cell, Model, TableError, MAX_DROPS, MAX_ITERATIONS};

#[test]
fn conversions() {
    let mut model = Model::default();
    model.width = 2_700;
    model.height = 2_700;
    let idx: usize = 540_001;
    let x: usize = 1;
    let y: usize = 200;
    assert_eq!(model.xy_to_idx(x, y), 540_001);
    assert_eq!(model.idx_to_xy(idx), (1, 200));
    assert_eq!(model.calc_center_idx(), 3_646_350);
    assert_eq!(model.calc_center_xy(), (1350, 1350));
}

#[test]
fn default_cell_is_untouched() {
    let cell = Cell::default();
    assert_eq!(cell.grains, 0);
    assert!(!cell.borged);
}

#[test]
fn default_model_is_a_fresh_3000_by_3000_table() {
    let model = Model::default();
    assert_eq!(model.width, 3_000);
    assert_eq!(model.height, 3_000);
    assert_eq!(model.cells.len(), 9_000_000);
    assert!(model.cells.iter().all(|c| c.grains == 0 && !c.borged));
    assert_eq!(model.total_grains, 0);
    assert_eq!(model.lost_grains, 0);
    assert_eq!(model.drop_cells, [0usize; MAX_DROPS]);
    assert_eq!(model.ac, 0);
    assert_eq!(model.active_cells, 0);
    assert_eq!(model.interval, 1_024);
    assert_eq!(model.avalanche, 0);
    assert!(model.is_wf());
}

#[test]
fn constants_have_their_values() {
    assert_eq!(MAX_DROPS, 32);
    assert_eq!(MAX_ITERATIONS, 16_777_216);
}

#[test]
fn with_size_makes_a_fresh_table() {
    let model = Model::with_size(7, 5).unwrap();
    assert_eq!(model.width, 7);
    assert_eq!(model.height, 5);
    assert_eq!(model.cells.len(), 35);
    assert!(model.cells.iter().all(|c| *c == Cell { grains: 0, borged: false }));
    assert_eq!(model.interval, 1_024);
    assert!(model.is_wf());
}

#[test]
fn with_size_refuses_a_table_without_cells() {
    assert_eq!(Model::with_size(0, 5).unwrap_err(), TableError::Empty);
    assert_eq!(Model::with_size(5, 0).unwrap_err(), TableError::Empty);
    assert_eq!(Model::with_size(0, 0).unwrap_err(), TableError::Empty);
}

#[test]
fn with_size_refuses_a_table_too_big_to_index() {
    assert_eq!(Model::with_size(usize::MAX, 2).unwrap_err(), TableError::TooBig);
    assert_eq!(Model::with_size(usize::MAX / 2 + 1, 2).unwrap_err(), TableError::TooBig);
}

#[test]
fn index_and_coordinates_lead_back_to_each_other() {
    let model = Model::with_size(13, 9).unwrap();
    for y in 0..9 {
        for x in 0..13 {
            let idx = model.xy_to_idx(x, y);
            assert_eq!(idx, y * 13 + x);
            assert_eq!(model.idx_to_xy(idx), (x, y));
        }
    }
    for idx in 0..13 * 9 {
        let (x, y) = model.idx_to_xy(idx);
        assert_eq!(model.xy_to_idx(x, y), idx);
    }
}

#[test]
fn center_of_a_1280_by_720_table() {
    let mut model = Model::with_size(1, 1).unwrap();
    model.width = 1_280;
    model.height = 720;
    assert_eq!(model.calc_center_idx(), 461_440);
    assert_eq!(model.calc_center_xy(), (640, 360));
}

#[test]
fn center_of_a_2700_by_2700_table() {
    let mut model = Model::with_size(1, 1).unwrap();
    model.width = 2_700;
    model.height = 2_700;
    assert_eq!(model.calc_center_idx(), 3_646_350);
    assert_eq!(model.calc_center_xy(), (1_350, 1_350));
}

#[test]
fn center_follows_the_parity_of_the_sides() {
    // even rows, even columns
    let m = Model::with_size(4, 6).unwrap();
    assert_eq!(m.calc_center_idx(), 12 + 2);
    assert_eq!(m.calc_center_xy(), (2, 3));
    // even rows, odd columns
    let m = Model::with_size(5, 6).unwrap();
    assert_eq!(m.calc_center_idx(), 15 + 2);
    assert_eq!(m.calc_center_xy(), (2, 3));
    // odd rows, odd columns: the true middle
    let m = Model::with_size(5, 5).unwrap();
    assert_eq!(m.calc_center_idx(), 12);
    assert_eq!(m.calc_center_xy(), (2, 2));
    // odd rows, even columns: one column before the middle
    let m = Model::with_size(4, 5).unwrap();
    assert_eq!(m.calc_center_idx(), 9);
    assert_eq!(m.calc_center_xy(), (1, 2));
    // the smallest table
    let m = Model::with_size(1, 1).unwrap();
    assert_eq!(m.calc_center_idx(), 0);
    assert_eq!(m.calc_center_xy(), (0, 0));
}

#[test]
fn is_wf_tells_a_model_in_order_from_one_that_is_not() {
    let good = Model::with_size(4, 4).unwrap();
    assert!(good.is_wf());

    let mut m = good.clone();
    m.width = 5;
    assert!(!m.is_wf());

    let mut m = good.clone();
    m.height = 0;
    assert!(!m.is_wf());

    let mut m = good.clone();
    m.cells[3].grains = 4;
    m.cells[3].borged = true;
    m.total_grains = 4;
    assert!(!m.is_wf());

    let mut m = good.clone();
    m.cells[3].grains = 2;
    m.total_grains = 2;
    assert!(!m.is_wf(), "grains on a cell that counts as never reached");
    m.cells[3].borged = true;
    assert!(m.is_wf());
    m.total_grains = 3;
    assert!(!m.is_wf(), "a grain that is neither on the table nor lost");
    m.lost_grains = 1;
    assert!(m.is_wf());

    let mut m = good.clone();
    m.active_cells = 1;
    m.drop_cells[0] = 16;
    assert!(!m.is_wf(), "a source outside the table");
    m.drop_cells[0] = 15;
    assert!(m.is_wf());
    m.drop_cells[1] = 7;
    assert!(!m.is_wf(), "an entry that is not in use and not zero");
    m.drop_cells[1] = 0;
    m.ac = 1;
    assert!(!m.is_wf(), "the turn with a source that is not in use");
    m.active_cells = 33;
    assert!(!m.is_wf());
}

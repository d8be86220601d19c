use lakhesis::{Model, SourceError, MAX_DROPS};

#[test]
fn three_sources_and_an_interval_of_six_give_each_source_two_grains() {
    let mut model = Model::with_size(30, 30).unwrap();
    let sources = [5 * 30 + 5, 15 * 30 + 15, 25 * 30 + 25];
    for source in sources {
        assert_eq!(model.register_source(source), Ok(()));
    }
    model.interval = 6;
    model.tick();
    assert_eq!(model.total_grains, 6);
    for source in sources {
        assert_eq!(model.cells[source].grains, 2);
        assert!(model.cells[source].borged);
    }
    assert_eq!(model.cells.iter().filter(|c| c.borged).count(), 3);
    assert_eq!(model.ac, 0);
    model.tick();
    assert_eq!(model.total_grains, 12);
    assert!(model.is_wf());
}

#[test]
fn the_turn_goes_round_in_the_order_of_registration() {
    let mut model = Model::with_size(10, 10).unwrap();
    for source in [42, 7, 99] {
        model.register_source(source).unwrap();
    }
    let mut order = Vec::new();
    for _ in 0..6 {
        order.push(model.next_source().unwrap());
    }
    assert_eq!(order, vec![42, 7, 99, 42, 7, 99]);
    assert_eq!(model.ac, 0);
    assert_eq!(model.next_source(), Some(42));
    assert_eq!(model.ac, 1);
}

#[test]
fn an_interval_that_the_sources_do_not_divide_leaves_the_turn_in_between() {
    let mut model = Model::with_size(10, 10).unwrap();
    for source in [11, 55, 88] {
        model.register_source(source).unwrap();
    }
    model.interval = 4;
    model.tick();
    assert_eq!(model.cells[11].grains, 2);
    assert_eq!(model.cells[55].grains, 1);
    assert_eq!(model.cells[88].grains, 1);
    assert_eq!(model.ac, 1);
    model.tick();
    assert_eq!(model.cells[11].grains, 3);
    assert_eq!(model.cells[55].grains, 3);
    assert_eq!(model.cells[88].grains, 2);
    assert_eq!(model.ac, 2);
}

#[test]
fn without_a_source_a_tick_drops_nothing() {
    let mut model = Model::with_size(10, 10).unwrap();
    let before = model.clone();
    model.tick();
    assert_eq!(model, before);
    assert_eq!(model.next_source(), None);
    assert_eq!(model, before);
}

#[test]
fn an_interval_of_zero_drops_nothing() {
    let mut model = Model::with_size(10, 10).unwrap();
    model.register_source(5).unwrap();
    model.interval = 0;
    let before = model.clone();
    model.tick();
    assert_eq!(model, before);
}

#[test]
fn a_tick_is_as_many_single_grains() {
    let mut ticked = Model::with_size(11, 11).unwrap();
    for source in [60, 0, 120, 65] {
        ticked.register_source(source).unwrap();
    }
    ticked.interval = 1_024;
    let mut by_hand = ticked.clone();
    ticked.tick();
    for _ in 0..1_024 {
        let source = by_hand.next_source().unwrap();
        by_hand.add_grain(source);
    }
    assert_eq!(ticked, by_hand);
    assert_eq!(ticked.total_grains, 1_024);
}

#[test]
fn the_thirty_third_source_is_refused() {
    let mut model = Model::with_size(10, 10).unwrap();
    for source in 0..MAX_DROPS {
        assert_eq!(model.register_source(source), Ok(()));
        assert_eq!(model.active_cells, source + 1);
    }
    let before = model.clone();
    assert_eq!(model.register_source(50), Err(SourceError::CapacityExceeded));
    assert_eq!(model, before);
    assert!(model.is_wf());
}

#[test]
fn a_source_outside_the_table_is_refused() {
    let mut model = Model::with_size(10, 10).unwrap();
    let before = model.clone();
    assert_eq!(model.register_source(100), Err(SourceError::OutsideTable));
    assert_eq!(model, before);
    assert_eq!(model.register_source(99), Ok(()));
    assert_eq!(model.drop_cells[0], 99);
    assert_eq!(model.active_cells, 1);
}

#[test]
fn a_full_table_of_sources_reports_capacity_before_the_cell() {
    let mut model = Model::with_size(10, 10).unwrap();
    for source in 0..MAX_DROPS {
        model.register_source(source).unwrap();
    }
    assert_eq!(model.register_source(1_000), Err(SourceError::CapacityExceeded));
}

#[test]
fn the_interval_grows_fourfold_up_to_65536() {
    let mut model = Model::with_size(4, 4).unwrap();
    assert_eq!(model.interval, 1_024);
    model.increase_interval();
    assert_eq!(model.interval, 4_096);
    model.increase_interval();
    assert_eq!(model.interval, 16_384);
    model.increase_interval();
    assert_eq!(model.interval, 16_384);
    model.interval = 16_383;
    model.increase_interval();
    assert_eq!(model.interval, 65_532);
    model.increase_interval();
    assert_eq!(model.interval, 65_532);
}

#[test]
fn the_interval_shrinks_to_a_quarter_down_to_one() {
    let mut model = Model::with_size(4, 4).unwrap();
    let mut seen = Vec::new();
    for _ in 0..7 {
        model.decrease_interval();
        seen.push(model.interval);
    }
    assert_eq!(seen, vec![256, 64, 16, 4, 1, 1, 1]);
    model.interval = 7;
    model.decrease_interval();
    assert_eq!(model.interval, 1);
}

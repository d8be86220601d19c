use lakhesis::{Cell, Checksum, Hues, Model, Rgba, SnapshotError};

const ZEROS: &str = "0,0,0,0,0,0,0,0,0,0,0,0,0,0,0,0,0,0,0,0,0,0,0,0,0,0,0,0,0,0,0,0";
const PALETTE: &str = "hues,0,0,0,0,0,119,242,255,0,226,48,255,252,249,0,255,0,0,0,0,229,40,56,255";

fn text(model: &Model) -> String {
    String::from_utf8(model.curate()).unwrap()
}

fn run_lines(model: &Model) -> Vec<String> {
    let text = text(model);
    let lines: Vec<&str> = text.split('\n').collect();
    lines[3..lines.len() - 1].iter().map(|l| l.to_string()).collect()
}

fn snapshot_of(header: &str, drops: &str, palette: &str, runs: &str, checksum: &str) -> Vec<u8> {
    format!("{}\n{}\n{}\n{}{}", header, drops, palette, runs, checksum).into_bytes()
}

fn worked_model() -> Model {
    let mut model = Model::with_size(12, 9).unwrap();
    for source in [40, 2, 107, 55] {
        model.register_source(source).unwrap();
    }
    model.interval = 500;
    model.tick();
    model.interval = 7;
    model.tick();
    model.hues.one_grain = Rgba { r: 1, g: 22, b: 133, a: 254 };
    model
}

#[test]
fn an_untouched_10_by_10_table_is_one_run() {
    let model = Model::with_size(10, 10).unwrap();
    assert_eq!(run_lines(&model), vec!["100,f"]);
    assert!(text(&model).ends_with("\n100,f\nChecksum: 100 of 100 cells recorded"));
}

#[test]
fn one_touched_cell_in_the_middle_makes_three_runs() {
    let mut model = Model::with_size(10, 10).unwrap();
    model.add_grain(55);
    assert_eq!(run_lines(&model), vec!["55,f", "1,t,1", "44,f"]);
}

#[test]
fn the_whole_text_of_a_fresh_2_by_2_table() {
    let model = Model::with_size(2, 2).unwrap();
    let expected = format!(
        "lakhesis,alpha,2,2,0,0,1024,0,0\ndrops,{}\n{}\n4,f\nChecksum: 4 of 4 cells recorded",
        ZEROS, PALETTE
    );
    assert_eq!(text(&model), expected);
}

#[test]
fn the_whole_text_of_a_table_in_use() {
    let mut model = Model::with_size(3, 3).unwrap();
    model.register_source(4).unwrap();
    model.register_source(0).unwrap();
    model.interval = 9;
    model.tick();
    // five grains on the middle, four on the corner: the middle topples at
    // the seventh grain, the corner at the eighth
    assert_eq!(model.total_grains, 9);
    let expected = format!(
        "lakhesis,alpha,3,3,9,2,9,2,0\ndrops,4,0,{}\n{}\n2,t,02\n1,f\n3,t,211\n1,f\n1,t,1\n1,f\n\
         Checksum: 9 of 9 cells recorded",
        &ZEROS[4..],
        PALETTE
    );
    assert_eq!(text(&model), expected);
}

#[test]
fn runs_end_where_the_cells_change_and_at_the_last_cell() {
    let mut model = Model::with_size(4, 1).unwrap();
    model.cells[3] = Cell { grains: 2, borged: true };
    model.total_grains = 2;
    assert_eq!(run_lines(&model), vec!["3,f", "1,t,2"]);
    model.cells[0] = Cell { grains: 0, borged: true };
    assert_eq!(run_lines(&model), vec!["1,t,0", "2,f", "1,t,2"]);
    for cell in model.cells.iter_mut() {
        *cell = Cell { grains: 3, borged: true };
    }
    assert_eq!(run_lines(&model), vec!["4,t,3333"]);
    let single = Model::with_size(1, 1).unwrap();
    assert_eq!(run_lines(&single), vec!["1,f"]);
}

#[test]
fn the_run_counts_add_up_to_the_cells() {
    let model = worked_model();
    let mut cells = 0;
    let mut touched = 0;
    for line in run_lines(&model) {
        let parts: Vec<&str> = line.split(',').collect();
        let count: usize = parts[0].parse().unwrap();
        cells += count;
        match parts[1] {
            "f" => assert_eq!(parts.len(), 2),
            "t" => {
                assert_eq!(parts[2].len(), count);
                touched += count;
            }
            other => panic!("a run marked {}", other),
        }
    }
    assert_eq!(cells, 108);
    assert_eq!(touched, model.cells.iter().filter(|c| c.borged).count());
}

#[test]
fn what_is_saved_is_loaded_again() {
    let saved = worked_model();
    let text = saved.curate();
    let mut loaded = Model::with_size(1, 1).unwrap();
    let sum = loaded.uncurate(&text).unwrap();
    assert_eq!(sum, Checksum { written: 108, cells: 108 });
    assert!(sum.holds());
    assert_eq!(loaded.cells, saved.cells);
    assert_eq!(loaded.width, saved.width);
    assert_eq!(loaded.height, saved.height);
    assert_eq!(loaded.drop_cells, saved.drop_cells);
    assert_eq!(loaded.active_cells, saved.active_cells);
    assert_eq!(loaded.total_grains, saved.total_grains);
    assert_eq!(loaded.lost_grains, saved.lost_grains);
    assert_eq!(loaded.interval, saved.interval);
    assert_eq!(loaded.avalanche, saved.avalanche);
    assert_eq!(loaded.hues, saved.hues);
    assert_eq!(loaded.ac, 0);
    assert!(loaded.is_wf());
    assert_eq!(loaded.curate(), text);
}

#[test]
fn a_model_loaded_from_its_own_snapshot_is_the_same_model() {
    let mut model = worked_model();
    assert_ne!(model.ac, 0);
    let before = model.clone();
    let text = model.curate();
    assert!(model.uncurate(&text).is_ok());
    assert_eq!(model, before);
}

#[test]
fn the_default_table_is_saved_and_loaded() {
    let mut model = Model::default();
    model.register_source(4_501_500).unwrap();
    model.tick();
    let text = model.curate();
    let mut loaded = Model::with_size(1, 1).unwrap();
    assert!(loaded.uncurate(&text).unwrap().holds());
    assert_eq!(loaded, Model { ac: 0, ..model });
}

#[test]
fn the_turn_stays_where_it_was_if_the_loaded_model_has_that_many_sources() {
    let saved = worked_model();
    let text = saved.curate();
    let mut other = Model::with_size(4, 4).unwrap();
    for source in [1, 2, 3] {
        other.register_source(source).unwrap();
    }
    other.ac = 2;
    other.uncurate(&text).unwrap();
    assert_eq!(other.ac, 2);
    let mut other = Model::with_size(4, 4).unwrap();
    for source in 0..6 {
        other.register_source(source).unwrap();
    }
    other.ac = 5;
    other.uncurate(&text).unwrap();
    assert_eq!(other.ac, 0);
}

#[test]
fn a_closing_line_whose_counts_differ_is_reported_and_the_model_loaded() {
    let saved = worked_model();
    let text = String::from_utf8(saved.curate()).unwrap();
    let text = text.replace("Checksum: 108 of 108", "Checksum: 107 of 108");
    let mut loaded = Model::with_size(1, 1).unwrap();
    let sum = loaded.uncurate(text.as_bytes()).unwrap();
    assert_eq!(sum, Checksum { written: 107, cells: 108 });
    assert!(!sum.holds());
    assert_eq!(loaded.cells, saved.cells);
    assert_eq!(loaded.total_grains, saved.total_grains);
}

#[test]
fn the_end_of_the_last_line_may_be_there_or_not() {
    let saved = worked_model();
    let mut text = saved.curate();
    text.push(b'\n');
    let mut loaded = Model::with_size(1, 1).unwrap();
    assert!(loaded.uncurate(&text).is_ok());
    assert_eq!(loaded.cells, saved.cells);
    text.push(b'\n');
    assert_eq!(loaded.uncurate(&text), Err(SnapshotError::Malformed));
}

#[test]
fn runs_need_not_be_as_long_as_they_could_be() {
    let header = "lakhesis,alpha,3,2,4,0,16,0,1";
    let drops = format!("drops,{}", ZEROS);
    let text = snapshot_of(
        header,
        &drops,
        PALETTE,
        "1,f\n2,f\n0,t,\n2,t,13\n0,f\n1,t,0\n",
        "Checksum: 6 of 6 cells recorded",
    );
    let mut loaded = Model::with_size(1, 1).unwrap();
    assert!(loaded.uncurate(&text).unwrap().holds());
    assert_eq!(loaded.width, 3);
    assert_eq!(loaded.height, 2);
    assert_eq!(loaded.interval, 16);
    assert_eq!(loaded.avalanche, 1);
    let expected = vec![
        Cell { grains: 0, borged: false },
        Cell { grains: 0, borged: false },
        Cell { grains: 0, borged: false },
        Cell { grains: 1, borged: true },
        Cell { grains: 3, borged: true },
        Cell { grains: 0, borged: true },
    ];
    assert_eq!(loaded.cells, expected);
    assert_eq!(loaded.hues, Hues::default());
}

#[test]
fn numbers_may_have_zeros_in_front() {
    let drops = format!("drops,{}", ZEROS);
    let text = snapshot_of(
        "lakhesis,alpha,002,1,00,0,0016,0,000",
        &drops,
        PALETTE,
        "02,f\n",
        "Checksum: 2 of 2 cells recorded",
    );
    let mut loaded = Model::with_size(1, 1).unwrap();
    assert!(loaded.uncurate(&text).is_ok());
    assert_eq!((loaded.width, loaded.height, loaded.interval), (2, 1, 16));
}

fn refused(text: &[u8]) -> SnapshotError {
    let mut model = worked_model();
    let before = model.clone();
    let error = model.uncurate(text).unwrap_err();
    assert_eq!(model, before, "a refused snapshot changed the model");
    error
}

#[test]
fn text_that_is_no_snapshot_is_malformed() {
    let drops = format!("drops,{}", ZEROS);
    let good = snapshot_of(
        "lakhesis,alpha,2,2,0,0,1024,0,0",
        &drops,
        PALETTE,
        "4,f\n",
        "Checksum: 4 of 4 cells recorded",
    );
    let mut model = Model::with_size(1, 1).unwrap();
    assert!(model.uncurate(&good).is_ok());

    assert_eq!(refused(b""), SnapshotError::Malformed);
    assert_eq!(refused(b"lakhesis"), SnapshotError::Malformed);
    assert_eq!(refused(b"not a snapshot at all\n"), SnapshotError::Malformed);
    assert_eq!(refused(&good[..good.len() - 1]), SnapshotError::Malformed);
    assert_eq!(refused(&good[1..]), SnapshotError::Malformed);
    for cut in [10, 40, 120, 200] {
        assert_eq!(refused(&good[..cut]), SnapshotError::Malformed);
    }
    let bad = |header: &str, drops: &str, palette: &str, runs: &str, checksum: &str| {
        refused(&snapshot_of(header, drops, palette, runs, checksum))
    };
    let header = "lakhesis,alpha,2,2,0,0,1024,0,0";
    let checksum = "Checksum: 4 of 4 cells recorded";
    // another version of the format
    assert_eq!(bad("lakhesis,beta,2,2,0,0,1024,0,0", &drops, PALETTE, "4,f\n", checksum), SnapshotError::Malformed);
    // a field too few, a field too many
    assert_eq!(bad("lakhesis,alpha,2,2,0,0,1024,0", &drops, PALETTE, "4,f\n", checksum), SnapshotError::Malformed);
    assert_eq!(bad("lakhesis,alpha,2,2,0,0,1024,0,0,0", &drops, PALETTE, "4,f\n", checksum), SnapshotError::Malformed);
    // a number that is none
    assert_eq!(bad("lakhesis,alpha,2,x,0,0,1024,0,0", &drops, PALETTE, "4,f\n", checksum), SnapshotError::Malformed);
    assert_eq!(bad("lakhesis,alpha,2,-2,0,0,1024,0,0", &drops, PALETTE, "4,f\n", checksum), SnapshotError::Malformed);
    assert_eq!(bad("lakhesis,alpha,2,,0,0,1024,0,0", &drops, PALETTE, "4,f\n", checksum), SnapshotError::Malformed);
    assert_eq!(bad("lakhesis,alpha,2, 2,0,0,1024,0,0", &drops, PALETTE, "4,f\n", checksum), SnapshotError::Malformed);
    // a number too large for the machine
    assert_eq!(
        bad("lakhesis,alpha,2,2,99999999999999999999999999,0,1024,0,0", &drops, PALETTE, "4,f\n", checksum),
        SnapshotError::Malformed
    );
    // a table too large for the machine
    assert_eq!(
        bad("lakhesis,alpha,4294967296000,4294967296000,0,0,1024,0,0", &drops, PALETTE, "4,f\n", checksum),
        SnapshotError::Malformed
    );
    // 31 sources
    assert_eq!(bad(header, &drops[..drops.len() - 2], PALETTE, "4,f\n", checksum), SnapshotError::Malformed);
    // a channel above 255
    assert_eq!(bad(header, &drops, &PALETTE.replace("242", "256"), "4,f\n", checksum), SnapshotError::Malformed);
    // lines out of order
    assert_eq!(bad(&drops, header, PALETTE, "4,f\n", checksum), SnapshotError::Malformed);
    // a run that is neither kind
    assert_eq!(bad(header, &drops, PALETTE, "4,x\n", checksum), SnapshotError::Malformed);
    // fewer digits than the run is long, more, and one that is none
    assert_eq!(bad(header, &drops, PALETTE, "4,t,000\n", checksum), SnapshotError::Malformed);
    assert_eq!(bad(header, &drops, PALETTE, "4,t,00000\n", checksum), SnapshotError::Malformed);
    assert_eq!(bad(header, &drops, PALETTE, "4,t,00a0\n", checksum), SnapshotError::Malformed);
    // more cells than the table has
    assert_eq!(bad(header, &drops, PALETTE, "5,f\n", checksum), SnapshotError::Malformed);
    assert_eq!(bad(header, &drops, PALETTE, "3,f\n2,t,00\n", checksum), SnapshotError::Malformed);
    // no closing line, or one that is not as it has to be
    assert_eq!(bad(header, &drops, PALETTE, "4,f\n", ""), SnapshotError::Malformed);
    assert_eq!(bad(header, &drops, PALETTE, "4,f\n", "Checksum: 4 of 4 cells"), SnapshotError::Malformed);
    assert_eq!(bad(header, &drops, PALETTE, "4,f\n", "Checksum: 4 of four cells recorded"), SnapshotError::Malformed);
    assert_eq!(bad(header, &drops, PALETTE, "4,f\n", "Checksum: 4 of 4 cells recorded, or so"), SnapshotError::Malformed);
}

#[test]
fn a_snapshot_of_a_model_that_is_not_in_order_is_inconsistent() {
    let drops = format!("drops,{}", ZEROS);
    let checksum = "Checksum: 4 of 4 cells recorded";
    let bad = |header: &str, drops: &str, runs: &str| {
        refused(&snapshot_of(header, drops, PALETTE, runs, checksum))
    };
    // fewer cells than the table has
    assert_eq!(bad("lakhesis,alpha,2,2,0,0,1024,0,0", &drops, "3,f\n"), SnapshotError::Inconsistent);
    assert_eq!(bad("lakhesis,alpha,2,2,0,0,1024,0,0", &drops, ""), SnapshotError::Inconsistent);
    // a table without cells
    assert_eq!(bad("lakhesis,alpha,0,2,0,0,1024,0,0", &drops, ""), SnapshotError::Inconsistent);
    // a cell that should have toppled
    assert_eq!(bad("lakhesis,alpha,2,2,4,0,1024,0,0", &drops, "1,t,4\n3,f\n"), SnapshotError::Inconsistent);
    assert_eq!(bad("lakhesis,alpha,2,2,9,0,1024,0,0", &drops, "1,t,9\n3,f\n"), SnapshotError::Inconsistent);
    // grains that are neither on the table nor lost
    assert_eq!(bad("lakhesis,alpha,2,2,5,1,1024,0,0", &drops, "1,t,3\n3,f\n"), SnapshotError::Inconsistent);
    assert_eq!(bad("lakhesis,alpha,2,2,3,1,1024,0,0", &drops, "1,t,3\n3,f\n"), SnapshotError::Inconsistent);
    // more sources than there can be
    assert_eq!(bad("lakhesis,alpha,2,2,0,0,1024,33,0", &drops, "4,f\n"), SnapshotError::Inconsistent);
    // a source outside the table
    let outside = format!("drops,4,{}", &ZEROS[2..]);
    assert_eq!(bad("lakhesis,alpha,2,2,0,0,1024,1,0", &outside, "4,f\n"), SnapshotError::Inconsistent);
    // an entry that is not in use and not zero
    let unused = format!("drops,1,2,{}", &ZEROS[4..]);
    assert_eq!(bad("lakhesis,alpha,2,2,0,0,1024,1,0", &unused, "4,f\n"), SnapshotError::Inconsistent);
    // and the same in order
    let mut model = Model::with_size(1, 1).unwrap();
    let good = snapshot_of("lakhesis,alpha,2,2,4,1,1024,2,0", &unused, PALETTE, "1,t,3\n3,f\n", checksum);
    assert!(model.uncurate(&good).is_ok());
    assert_eq!(model.active_cells, 2);
    assert_eq!(model.drop_cells[1], 2);
    assert_eq!(model.cells[0], Cell { grains: 3, borged: true });
}

#[test]
fn numbers_are_written_in_decimal() {
    let mut model = Model::with_size(1, 1).unwrap();
    model.interval = 18_446_744_073_709_551_615;
    model.avalanche = 1_000_000;
    model.hues.four_grains = Rgba { r: 9, g: 10, b: 99, a: 100 };
    let text = text(&model);
    assert!(text.starts_with("lakhesis,alpha,1,1,0,0,18446744073709551615,0,1000000\n"));
    assert!(text.contains(",9,10,99,100\n1,f\n"));
    let mut loaded = Model::with_size(3, 3).unwrap();
    assert!(loaded.uncurate(text.as_bytes()).is_ok());
    assert_eq!(loaded, model);
}

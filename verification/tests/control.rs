use lakhesis::{Act, Button, Control, Key, Model, Notice, Reaction, SourceError, MAX_ITERATIONS};

const QUIET: Reaction = Reaction { act: Act::Nothing, notice: Notice::Unchanged };

fn tells(notice: Notice) -> Reaction {
    Reaction { act: Act::Nothing, notice }
}

fn small() -> Model {
    Model::with_size(8, 8).unwrap()
}

#[test]
fn a_simulation_starts_paused_with_the_panel_shown() {
    let control = Control::default();
    assert!(control.visible);
    assert!(control.paused);
    assert!(!control.magnify && !control.add && !control.reset && !control.increment && !control.color);
    assert_eq!(control.video, 0);
}

#[test]
fn no_key_does_nothing() {
    let mut control = Control::default();
    let mut model = small();
    let before = model.clone();
    assert_eq!(control.check_keyboard(None, true, &mut model), QUIET);
    assert_eq!(control, Control::default());
    assert_eq!(model, before);
}

#[test]
fn a_asks_for_a_source_until_all_are_in_use() {
    let mut control = Control { paused: false, ..Control::default() };
    let mut model = small();
    assert_eq!(control.check_keyboard(Some(Key::A), false, &mut model), tells(Notice::ChoosePoint));
    assert!(control.add && control.paused);
    for source in 0..32 {
        model.register_source(source).unwrap();
    }
    let mut control = Control { paused: false, ..Control::default() };
    assert_eq!(control.check_keyboard(Some(Key::A), false, &mut model), tells(Notice::PointsFull));
    assert!(!control.add && !control.paused);
    assert_eq!(control.push_button(Button::Add, &mut model), tells(Notice::PointsFull));
    assert!(!control.add);
}

#[test]
fn keys_that_set_one_switch() {
    let mut model = small();
    let mut control = Control { paused: false, ..Control::default() };
    assert_eq!(control.check_keyboard(Some(Key::C), false, &mut model), QUIET);
    assert_eq!(control, Control { paused: true, color: true, ..Control::default() });

    let mut control = Control::default();
    assert_eq!(control.check_keyboard(Some(Key::I), false, &mut model), tells(Notice::HidePanel));
    assert!(!control.visible);
    control.check_keyboard(Some(Key::I), false, &mut model);
    assert!(control.visible);

    assert_eq!(control.check_keyboard(Some(Key::M), false, &mut model), QUIET);
    assert!(control.magnify);
    control.check_keyboard(Some(Key::M), false, &mut model);
    assert!(!control.magnify);

    assert_eq!(control.check_keyboard(Some(Key::P), false, &mut model), QUIET);
    assert!(!control.paused);
    control.check_keyboard(Some(Key::P), false, &mut model);
    assert!(control.paused);

    let mut control = Control { paused: false, ..Control::default() };
    assert_eq!(control.check_keyboard(Some(Key::Space), false, &mut model), tells(Notice::StepByKey));
    assert_eq!(control, Control { paused: true, increment: true, ..Control::default() });
    control.check_keyboard(Some(Key::Space), false, &mut model);
    assert!(control.increment);
}

#[test]
fn keys_that_ask_the_caller_for_a_file() {
    let mut model = small();
    let mut control = Control::default();
    assert_eq!(
        control.check_keyboard(Some(Key::G), false, &mut model),
        Reaction { act: Act::Curate, notice: Notice::Unchanged }
    );
    assert_eq!(
        control.check_keyboard(Some(Key::S), false, &mut model),
        Reaction { act: Act::Paint, notice: Notice::Painted }
    );
    assert_eq!(control.check_keyboard(Some(Key::H), false, &mut model), tells(Notice::LoadHint));
    assert_eq!(
        control.check_keyboard(Some(Key::H), true, &mut model),
        Reaction { act: Act::Uncurate, notice: Notice::Unchanged }
    );
    assert_eq!(control, Control::default());
}

#[test]
fn keys_that_want_a_control_key_held() {
    let mut model = small();
    let mut control = Control::default();
    assert_eq!(control.check_keyboard(Some(Key::N), false, &mut model), tells(Notice::NewHint));
    assert!(!control.reset);
    assert_eq!(control.check_keyboard(Some(Key::N), true, &mut model), QUIET);
    assert!(control.reset);

    let mut control = Control::default();
    assert_eq!(control.check_keyboard(Some(Key::V), false, &mut model), tells(Notice::VideoHint));
    assert_eq!(control.video, 0);
    assert_eq!(control.check_keyboard(Some(Key::V), true, &mut model), QUIET);
    assert_eq!(control.video, 600);
}

#[test]
fn up_and_down_change_the_interval_unless_a_video_is_taken() {
    let mut model = small();
    let mut control = Control::default();
    assert_eq!(control.check_keyboard(Some(Key::Up), false, &mut model), QUIET);
    assert_eq!(model.interval, 4_096);
    assert_eq!(control.check_keyboard(Some(Key::Down), false, &mut model), QUIET);
    assert_eq!(control.check_keyboard(Some(Key::Down), false, &mut model), QUIET);
    assert_eq!(model.interval, 256);
    assert_eq!(control.push_button(Button::Increase, &mut model), QUIET);
    assert_eq!(model.interval, 1_024);
    assert_eq!(control.push_button(Button::Decrease, &mut model), QUIET);
    assert_eq!(model.interval, 256);
    control.video = 3;
    control.check_keyboard(Some(Key::Up), false, &mut model);
    control.check_keyboard(Some(Key::Down), false, &mut model);
    control.push_button(Button::Increase, &mut model);
    control.push_button(Button::Decrease, &mut model);
    assert_eq!(model.interval, 256);
    assert_eq!(control, Control { video: 3, ..Control::default() });
}

#[test]
fn escape_calls_off_the_source_and_the_video() {
    let mut model = small();
    let mut control = Control { add: true, paused: true, video: 17, ..Control::default() };
    assert_eq!(control.check_keyboard(Some(Key::Escape), false, &mut model), tells(Notice::HidePanel));
    assert_eq!(control, Control { add: false, paused: false, video: 0, ..Control::default() });
    let mut control = Control { paused: true, ..Control::default() };
    control.check_keyboard(Some(Key::Escape), false, &mut model);
    assert_eq!(control, Control::default());
}

#[test]
fn the_buttons_of_the_panel() {
    let mut model = small();
    let mut control = Control { paused: false, ..Control::default() };
    assert_eq!(control.push_button(Button::Add, &mut model), tells(Notice::ChoosePoint));
    assert!(control.add && control.paused);

    let mut control = Control::default();
    assert_eq!(control.push_button(Button::Pause, &mut model), QUIET);
    assert!(!control.paused);

    assert_eq!(control.push_button(Button::Step, &mut model), tells(Notice::StepByButton));
    assert!(control.increment && control.paused);
    control.push_button(Button::Step, &mut model);
    assert!(!control.increment && control.paused);

    assert_eq!(control.push_button(Button::Magnify, &mut model), QUIET);
    assert!(control.magnify);

    let mut control = Control { paused: false, ..Control::default() };
    assert_eq!(control.push_button(Button::Color, &mut model), QUIET);
    assert!(control.color && control.paused);

    let mut control = Control::default();
    assert_eq!(
        control.push_button(Button::Snapshot, &mut model),
        Reaction { act: Act::Paint, notice: Notice::Painted }
    );
    assert_eq!(control, Control::default());
    assert_eq!(control.push_button(Button::Reset, &mut model), QUIET);
    assert!(control.reset);
}

#[test]
fn a_placed_source_lets_the_simulation_run() {
    let mut model = small();
    let mut control = Control { add: true, paused: true, ..Control::default() };
    assert_eq!(control.place_source(&mut model, 27), Ok(()));
    assert_eq!(model.active_cells, 1);
    assert_eq!(model.drop_cells[0], 27);
    assert!(!control.add && !control.paused);

    let mut control = Control { add: true, paused: true, ..Control::default() };
    assert_eq!(control.place_source(&mut model, 64), Err(SourceError::OutsideTable));
    assert!(control.add && control.paused);
    assert_eq!(model.active_cells, 1);
}

#[test]
fn a_frame_ticks_when_the_simulation_runs() {
    let mut model = small();
    model.register_source(27).unwrap();
    model.interval = 5;
    let mut control = Control { paused: false, ..Control::default() };
    assert!(!control.run_frame(&mut model));
    assert_eq!(model.total_grains, 5);
    assert!(!control.paused);

    control.paused = true;
    assert!(!control.run_frame(&mut model));
    assert_eq!(model.total_grains, 5);

    control.increment = true;
    assert!(!control.run_frame(&mut model));
    assert_eq!(model.total_grains, 10);
    assert!(!control.increment && control.paused);
    control.run_frame(&mut model);
    assert_eq!(model.total_grains, 10);
}

#[test]
fn a_frame_without_a_source_drops_nothing_and_keeps_the_step() {
    let mut model = small();
    let mut control = Control { paused: false, increment: true, video: 4, ..Control::default() };
    assert!(!control.run_frame(&mut model));
    assert_eq!(model.total_grains, 0);
    assert!(control.increment);
    assert_eq!(control.video, 4);
}

#[test]
fn a_frame_takes_a_picture_while_the_video_lasts() {
    let mut model = small();
    model.register_source(27).unwrap();
    model.interval = 1;
    let mut control = Control { paused: false, video: 2, ..Control::default() };
    assert!(control.run_frame(&mut model));
    assert_eq!(control.video, 1);
    assert!(control.run_frame(&mut model));
    assert_eq!(control.video, 0);
    assert!(!control.run_frame(&mut model));
    assert_eq!(model.total_grains, 3);
}

#[test]
fn the_simulation_pauses_once_enough_grains_have_been_dropped() {
    let mut model = small();
    model.register_source(27).unwrap();
    model.interval = 2;
    model.total_grains = MAX_ITERATIONS - 3;
    model.lost_grains = MAX_ITERATIONS - 3;
    assert!(model.is_wf());
    let mut control = Control { paused: false, ..Control::default() };
    control.run_frame(&mut model);
    assert_eq!(model.total_grains, MAX_ITERATIONS - 1);
    assert!(!control.paused);
    control.run_frame(&mut model);
    assert_eq!(model.total_grains, MAX_ITERATIONS + 1);
    assert!(control.paused);
    control.run_frame(&mut model);
    assert_eq!(model.total_grains, MAX_ITERATIONS + 1);
}

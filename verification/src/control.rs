//! What the simulation is told to do, and what it does about it.
//!
//! The switches of a running simulation are set by keys and by the buttons
//! of a panel. Here is what each of them does to the switches and to the
//! model; drawing, reading keys and writing files is left to the caller,
//! who is told what remains to be done.

use crate::model::{Model, State, MAX_DROPS, MAX_ITERATIONS};
use vstd::prelude::*;

verus! {

/// Number of pictures that make a video of ten seconds.
pub const VIDEO_FRAME_COUNT: usize = 600;

/// Whether files can be written and read where the simulation runs.
pub const IO_SUPPORTED: bool = true;

/// The switches of a running simulation.
#[derive(Clone, Copy, Debug, PartialEq, Eq, Structural)]
pub struct Control {
    /// The panel is shown.
    pub visible: bool,
    /// The magnifying glass is shown.
    pub magnify: bool,
    /// No grains are dropped.
    pub paused: bool,
    /// The next click places a source.
    pub add: bool,
    /// The simulation is to start anew.
    pub reset: bool,
    /// One tick is to be made though the simulation is paused.
    pub increment: bool,
    /// Pictures still to be taken for the video.
    pub video: usize,
    /// The colours are being changed.
    pub color: bool,
}

/// The keys that tell the simulation something.
#[derive(Clone, Copy, Debug, PartialEq, Eq, Structural)]
pub enum Key {
    A,
    C,
    G,
    H,
    I,
    M,
    N,
    P,
    S,
    V,
    Space,
    Up,
    Down,
    Escape,
}

/// The buttons of the panel that tell the simulation something.
#[derive(Clone, Copy, Debug, PartialEq, Eq, Structural)]
pub enum Button {
    Add,
    Pause,
    Step,
    Magnify,
    Color,
    Snapshot,
    Reset,
    Increase,
    Decrease,
}

/// What the caller is to do after a key or a button.
#[derive(Clone, Copy, Debug, PartialEq, Eq, Structural)]
pub enum Act {
    Nothing,
    /// Save the model.
    Curate,
    /// Load the saved model.
    Uncurate,
    /// Paint the extent of the model.
    Paint,
}

/// What the caller is to tell the user.
#[derive(Clone, Copy, Debug, PartialEq, Eq, Structural)]
pub enum Notice {
    /// What was said before still holds.
    Unchanged,
    ChoosePoint,
    PointsFull,
    HidePanel,
    LoadHint,
    NewHint,
    VideoHint,
    StepByKey,
    StepByButton,
    Painted,
    NoPainting,
    NoSaving,
    NoLoading,
    NoRestart,
}

/// What a key or a button leads to.
#[derive(Clone, Copy, Debug, PartialEq, Eq, Structural)]
pub struct Reaction {
    pub act: Act,
    pub notice: Notice,
}

/// The switches, the interval and the reaction after a key or a button.
pub struct Outcome {
    pub control: Control,
    pub interval: nat,
    pub reaction: Reaction,
}

/// Nothing to do and nothing to tell.
pub open spec fn quiet() -> Reaction {
    Reaction { act: Act::Nothing, notice: Notice::Unchanged }
}

/// Nothing to do but to tell the user.
pub open spec fn telling(notice: Notice) -> Reaction {
    Reaction { act: Act::Nothing, notice }
}

impl Control {
    /// The switches that a simulation starts with: the panel shown, and no
    /// grains dropped until a source is placed.
    pub open spec fn initial() -> Control {
        Control {
            visible: true,
            magnify: false,
            paused: true,
            add: false,
            reset: false,
            increment: false,
            video: 0,
            color: false,
        }
    }

    /// Asking for a new source: the simulation waits for the click, unless
    /// all sources are in use.
    pub open spec fn adding(self, s: State) -> Outcome {
        if s.active_cells < MAX_DROPS {
            Outcome {
                control: Control { paused: true, add: true, ..self },
                interval: s.interval,
                reaction: telling(Notice::ChoosePoint),
            }
        } else {
            Outcome { control: self, interval: s.interval, reaction: telling(Notice::PointsFull) }
        }
    }

    /// Asking for a picture of the extent.
    pub open spec fn painting(self, s: State) -> Outcome {
        if IO_SUPPORTED {
            Outcome {
                control: self,
                interval: s.interval,
                reaction: Reaction { act: Act::Paint, notice: Notice::Painted },
            }
        } else {
            Outcome { control: self, interval: s.interval, reaction: telling(Notice::NoPainting) }
        }
    }

    /// Asking for longer ticks, which is not heeded while a video is taken.
    pub open spec fn speeding(self, s: State) -> Outcome {
        Outcome {
            control: self,
            interval: if self.video == 0 {
                s.longer_interval().interval
            } else {
                s.interval
            },
            reaction: quiet(),
        }
    }

    /// Asking for shorter ticks, which is not heeded while a video is taken.
    pub open spec fn slowing(self, s: State) -> Outcome {
        Outcome {
            control: self,
            interval: if self.video == 0 {
                s.shorter_interval().interval
            } else {
                s.interval
            },
            reaction: quiet(),
        }
    }

    /// What a key does. `held` says whether a control key is held down with
    /// it, which the keys that load, restart and record ask for.
    pub open spec fn keyed(self, key: Key, held: bool, s: State) -> Outcome {
        let same = Outcome { control: self, interval: s.interval, reaction: quiet() };
        match key {
            Key::A => self.adding(s),
            Key::C => Outcome { control: Control { color: true, paused: true, ..self }, ..same },
            Key::G => if IO_SUPPORTED {
                Outcome { reaction: Reaction { act: Act::Curate, notice: Notice::Unchanged }, ..same }
            } else {
                Outcome { reaction: telling(Notice::NoSaving), ..same }
            },
            Key::H => if IO_SUPPORTED {
                if held {
                    Outcome {
                        reaction: Reaction { act: Act::Uncurate, notice: Notice::Unchanged },
                        ..same
                    }
                } else {
                    Outcome { reaction: telling(Notice::LoadHint), ..same }
                }
            } else {
                Outcome { reaction: telling(Notice::NoLoading), ..same }
            },
            Key::I => Outcome {
                control: Control { visible: !self.visible, ..self },
                reaction: telling(Notice::HidePanel),
                ..same
            },
            Key::M => Outcome { control: Control { magnify: !self.magnify, ..self }, ..same },
            Key::N => if IO_SUPPORTED {
                if held {
                    Outcome { control: Control { reset: true, ..self }, ..same }
                } else {
                    Outcome { reaction: telling(Notice::NewHint), ..same }
                }
            } else {
                Outcome { reaction: telling(Notice::NoRestart), ..same }
            },
            Key::P => Outcome { control: Control { paused: !self.paused, ..self }, ..same },
            Key::S => self.painting(s),
            Key::V => if IO_SUPPORTED {
                if held {
                    Outcome { control: Control { video: VIDEO_FRAME_COUNT, ..self }, ..same }
                } else {
                    Outcome { reaction: telling(Notice::VideoHint), ..same }
                }
            } else {
                Outcome { reaction: telling(Notice::NoPainting), ..same }
            },
            Key::Space => Outcome {
                control: Control { paused: true, increment: true, ..self },
                reaction: telling(Notice::StepByKey),
                ..same
            },
            Key::Up => self.speeding(s),
            Key::Down => self.slowing(s),
            Key::Escape => Outcome {
                control: Control {
                    add: false,
                    paused: if self.add {
                        false
                    } else {
                        self.paused
                    },
                    video: 0,
                    ..self
                },
                reaction: telling(Notice::HidePanel),
                ..same
            },
        }
    }

    /// What a button of the panel does.
    pub open spec fn pushed(self, button: Button, s: State) -> Outcome {
        let same = Outcome { control: self, interval: s.interval, reaction: quiet() };
        match button {
            Button::Add => self.adding(s),
            Button::Pause => Outcome { control: Control { paused: !self.paused, ..self }, ..same },
            Button::Step => Outcome {
                control: Control { increment: !self.increment, paused: true, ..self },
                reaction: telling(Notice::StepByButton),
                ..same
            },
            Button::Magnify => Outcome { control: Control { magnify: !self.magnify, ..self }, ..same },
            Button::Color => Outcome { control: Control { color: true, paused: true, ..self }, ..same },
            Button::Snapshot => self.painting(s),
            Button::Reset => Outcome { control: Control { reset: true, ..self }, ..same },
            Button::Increase => self.speeding(s),
            Button::Decrease => self.slowing(s),
        }
    }

    /// The switches after the place for a new source has been chosen: the
    /// simulation runs again.
    pub open spec fn placed(self) -> Control {
        Control { paused: false, add: false, ..self }
    }

    /// Are grains to be dropped in this frame?
    pub open spec fn runs(self, s: State) -> bool {
        (!self.paused || self.increment) && s.active_cells > 0
    }

    /// The model after a frame: one tick, if grains are to be dropped.
    pub open spec fn framed_model(self, s: State) -> State {
        if self.runs(s) {
            s.ticked()
        } else {
            s
        }
    }

    /// The switches after a frame: a tick uses up the step that was asked
    /// for and one picture of the video, and the simulation is paused once
    /// [`MAX_ITERATIONS`] grains have been dropped.
    pub open spec fn framed(self, s: State) -> Control {
        let after = self.framed_model(s);
        Control {
            increment: if self.runs(s) {
                false
            } else {
                self.increment
            },
            video: if self.runs(s) && self.video > 0 {
                (self.video - 1) as usize
            } else {
                self.video
            },
            paused: self.paused || after.total_grains >= MAX_ITERATIONS,
            ..self
        }
    }

    /// The switches that a simulation starts with.
    pub fn default() -> (control: Control)
        ensures
            control == Control::initial(),
    {
        Control {
            visible: true,
            magnify: false,
            paused: true,
            add: false,
            reset: false,
            increment: false,
            video: 0,
            color: false,
        }
    }

    /// A new source is asked for, by key or by button.
    fn ask_for_source(&mut self, model: &Model) -> (reaction: Reaction)
        ensures
            *final(self) == old(self).adding(model@).control,
            reaction == old(self).adding(model@).reaction,
    {
        if model.active_cells < MAX_DROPS {
            self.paused = true;
            self.add = true;
            Reaction { act: Act::Nothing, notice: Notice::ChoosePoint }
        } else {
            Reaction { act: Act::Nothing, notice: Notice::PointsFull }
        }
    }

    /// A picture of the extent is asked for, by key or by button.
    fn ask_for_picture(&self, model: &Model) -> (reaction: Reaction)
        ensures
            reaction == self.painting(model@).reaction,
    {
        if IO_SUPPORTED {
            Reaction { act: Act::Paint, notice: Notice::Painted }
        } else {
            Reaction { act: Act::Nothing, notice: Notice::NoPainting }
        }
    }

    /// Takes a key: sets the switches and the interval of the model, and
    /// says what is left for the caller to do. No key does nothing.
    pub fn check_keyboard(&mut self, key: Option<Key>, held: bool, model: &mut Model) -> (reaction:
        Reaction)
        ensures
            match key {
                Some(key) => {
                    &&& *final(self) == old(self).keyed(key, held, old(model)@).control
                    &&& final(model)@ == (State {
                        interval: old(self).keyed(key, held, old(model)@).interval,
                        ..old(model)@
                    })
                    &&& reaction == old(self).keyed(key, held, old(model)@).reaction
                },
                None => *final(self) == *old(self) && final(model)@ == old(model)@ && reaction
                    == quiet(),
            },
            old(model).wf() ==> final(model).wf(),
    {
        let nothing = Reaction { act: Act::Nothing, notice: Notice::Unchanged };
        match key {
            None => nothing,
            Some(Key::A) => self.ask_for_source(model),
            Some(Key::C) => {
                self.color = true;
                self.paused = true;
                nothing
            },
            Some(Key::G) => {
                if IO_SUPPORTED {
                    Reaction { act: Act::Curate, notice: Notice::Unchanged }
                } else {
                    Reaction { act: Act::Nothing, notice: Notice::NoSaving }
                }
            },
            Some(Key::H) => {
                if IO_SUPPORTED {
                    if held {
                        Reaction { act: Act::Uncurate, notice: Notice::Unchanged }
                    } else {
                        Reaction { act: Act::Nothing, notice: Notice::LoadHint }
                    }
                } else {
                    Reaction { act: Act::Nothing, notice: Notice::NoLoading }
                }
            },
            Some(Key::I) => {
                self.visible = !self.visible;
                Reaction { act: Act::Nothing, notice: Notice::HidePanel }
            },
            Some(Key::M) => {
                self.magnify = !self.magnify;
                nothing
            },
            Some(Key::N) => {
                if IO_SUPPORTED {
                    if held {
                        self.reset = true;
                        nothing
                    } else {
                        Reaction { act: Act::Nothing, notice: Notice::NewHint }
                    }
                } else {
                    Reaction { act: Act::Nothing, notice: Notice::NoRestart }
                }
            },
            Some(Key::P) => {
                self.paused = !self.paused;
                nothing
            },
            Some(Key::S) => self.ask_for_picture(model),
            Some(Key::V) => {
                if IO_SUPPORTED {
                    if held {
                        self.video = VIDEO_FRAME_COUNT;
                        nothing
                    } else {
                        Reaction { act: Act::Nothing, notice: Notice::VideoHint }
                    }
                } else {
                    Reaction { act: Act::Nothing, notice: Notice::NoPainting }
                }
            },
            Some(Key::Space) => {
                self.paused = true;
                self.increment = true;
                Reaction { act: Act::Nothing, notice: Notice::StepByKey }
            },
            Some(Key::Up) => {
                if self.video == 0 {
                    model.increase_interval();
                }
                nothing
            },
            Some(Key::Down) => {
                if self.video == 0 {
                    model.decrease_interval();
                }
                nothing
            },
            Some(Key::Escape) => {
                if self.add {
                    self.add = false;
                    self.paused = false;
                }
                if self.video > 0 {
                    self.video = 0;
                }
                Reaction { act: Act::Nothing, notice: Notice::HidePanel }
            },
        }
    }

    /// Takes a button of the panel: sets the switches and the interval of
    /// the model, and says what is left for the caller to do.
    pub fn push_button(&mut self, button: Button, model: &mut Model) -> (reaction: Reaction)
        ensures
            *final(self) == old(self).pushed(button, old(model)@).control,
            final(model)@ == (State {
                interval: old(self).pushed(button, old(model)@).interval,
                ..old(model)@
            }),
            reaction == old(self).pushed(button, old(model)@).reaction,
            old(model).wf() ==> final(model).wf(),
    {
        let nothing = Reaction { act: Act::Nothing, notice: Notice::Unchanged };
        match button {
            Button::Add => self.ask_for_source(model),
            Button::Pause => {
                self.paused = !self.paused;
                nothing
            },
            Button::Step => {
                self.increment = !self.increment;
                self.paused = true;
                Reaction { act: Act::Nothing, notice: Notice::StepByButton }
            },
            Button::Magnify => {
                self.magnify = !self.magnify;
                nothing
            },
            Button::Color => {
                self.color = true;
                self.paused = true;
                nothing
            },
            Button::Snapshot => self.ask_for_picture(model),
            Button::Reset => {
                self.reset = true;
                nothing
            },
            Button::Increase => {
                if self.video == 0 {
                    model.increase_interval();
                }
                nothing
            },
            Button::Decrease => {
                if self.video == 0 {
                    model.decrease_interval();
                }
                nothing
            },
        }
    }

    /// Places the source that was asked for on cell `index` and lets the
    /// simulation run again. Where the source is refused nothing changes.
    pub fn place_source(&mut self, model: &mut Model, index: usize) -> (done: Result<
        (),
        crate::schedule::SourceError,
    >)
        requires
            old(model).wf(),
        ensures
            final(model).wf(),
            match done {
                Ok(()) => {
                    &&& old(model).active_cells < MAX_DROPS
                    &&& index < old(model).cells.len()
                    &&& final(model)@ == old(model)@.source_added(index)
                    &&& *final(self) == old(self).placed()
                },
                Err(crate::schedule::SourceError::CapacityExceeded) => {
                    &&& old(model).active_cells == MAX_DROPS
                    &&& final(model)@ == old(model)@
                    &&& *final(self) == *old(self)
                },
                Err(crate::schedule::SourceError::OutsideTable) => {
                    &&& old(model).active_cells < MAX_DROPS
                    &&& index >= old(model).cells.len()
                    &&& final(model)@ == old(model)@
                    &&& *final(self) == *old(self)
                },
            },
    {
        match model.register_source(index) {
            Ok(()) => {
                self.paused = false;
                self.add = false;
                Ok(())
            },
            Err(refused) => Err(refused),
        }
    }

    /// Runs one frame: a tick of the model, unless the simulation is paused
    /// and no step was asked for, or there is no source. Says whether a
    /// picture for the video is to be taken, after which `video` pictures
    /// are left to take.
    pub fn run_frame(&mut self, model: &mut Model) -> (picture: bool)
        requires
            old(model).wf(),
            old(model).total_grains + old(model).interval <= usize::MAX,
        ensures
            final(model).wf(),
            final(model)@ == old(self).framed_model(old(model)@),
            *final(self) == old(self).framed(old(model)@),
            picture == (old(self).runs(old(model)@) && old(self).video > 0),
    {
        let mut picture = false;
        if (!self.paused || self.increment) && model.active_cells > 0 {
            model.tick();
            if self.video > 0 {
                self.video = self.video - 1;
                picture = true;
            }
            self.increment = false;
        }
        if model.total_grains >= MAX_ITERATIONS {
            self.paused = true;
        }
        picture
    }
}

} // verus!

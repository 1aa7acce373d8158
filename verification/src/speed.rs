//! The decisions behind the speed panel: whether the simulation runs or
//! is paused, how fast it is asked to run, and what a press of one of the
//! panel's buttons leads to. Drawing the panel, reading the buttons and
//! the clock, and turning the position of the slider into a speed are
//! left to the caller.

use vstd::prelude::*;
use crate::units::{TICKS_PER_SECOND, Tick};

verus! {

/// The slider's position is counted in steps of a hundredth of a percent.
pub const SLIDER_MAX: u32 = 10000;

/// One press of a speed button moves the slider by one percent.
pub const ADJUST_SPEED: u32 = 100;

/// The most simulated seconds in a real second: ten minutes.
pub const SPEED_CAP: u32 = 600;

/// The most simulated seconds in a real second when developing: an hour.
pub const SPEED_CAP_DEV: u32 = 3600;

/// The ticks that the large step asks for: ten simulated minutes.
pub const LARGE_STEP: u64 = 600 * TICKS_PER_SECOND;

#[derive(Clone, Copy, Debug, PartialEq, Eq, Structural)]
pub enum SpeedState {
    Paused,
    Running,
}

#[derive(Clone, Copy, Debug, PartialEq, Eq, Structural)]
pub struct SpeedControls {
    pub state: SpeedState,
    /// The position of the speed slider, from 0 to `SLIDER_MAX`.
    pub slider: u32,
    /// The speed at the top of the slider, in simulated seconds in a
    /// real second.
    pub speed_cap: u32,
}

/// What happened since the panel was last asked.
#[derive(Clone, Copy, Debug, PartialEq, Eq, Structural)]
pub struct SpeedInput {
    pub speed_up_clicked: bool,
    pub slow_down_clicked: bool,
    /// The button that resumes or pauses, whichever is shown, was
    /// clicked.
    pub resume_or_pause_clicked: bool,
    /// The time has come to move the simulation on.
    pub is_update: bool,
    pub small_step_clicked: bool,
    pub large_step_clicked: bool,
    pub jump_to_time_clicked: bool,
    /// The simulated time.
    pub now: Tick,
}

/// Where the panel sends the caller.
#[derive(Clone, Copy, Debug, PartialEq, Eq, Structural)]
pub enum SpeedTransition {
    /// To a screen that fast-forwards to the given time.
    TimeWarp(TimeWarpScreen),
    /// To a prompt for a time to jump to.
    AskForTime,
}

/// What the caller is to do after an event.
#[derive(Clone, Copy, Debug, PartialEq, Eq, Structural)]
pub struct SpeedOutcome {
    /// Move the simulation on by the real time that has passed, times
    /// the speed asked for.
    pub fast_forward: bool,
    /// Then move the simulation on by one tick.
    pub small_step: bool,
    /// Then go where this says.
    pub transition: Option<SpeedTransition>,
}

/// A screen that fast-forwards the simulation to a time.
#[derive(Clone, Copy, Debug, PartialEq, Eq, Structural)]
pub struct TimeWarpScreen {
    pub target: Tick,
}

/// What a time warp asks for.
#[derive(Clone, Copy, Debug, PartialEq, Eq, Structural)]
pub enum WarpPlan {
    /// Leave the screen.
    Leave,
    /// Fast-forward by this many ticks, then ask `is_done`.
    Warp(u64),
    /// Do nothing, then ask `is_done`.
    Wait,
}

/// The slider after a press of a speed button: one percent up, if the
/// button to speed up was pressed and the slider is not at its top; else
/// one percent down, if the button to slow down was pressed and the
/// slider is not at its bottom. The slider stays between bottom and top.
pub open spec fn spec_adjust(slider: u32, speed_up: bool, slow_down: bool) -> u32 {
    if speed_up && slider != SLIDER_MAX {
        if slider + ADJUST_SPEED >= SLIDER_MAX {
            SLIDER_MAX
        } else {
            (slider + ADJUST_SPEED) as u32
        }
    } else if slow_down && slider != 0 {
        if slider <= ADJUST_SPEED {
            0
        } else {
            (slider - ADJUST_SPEED) as u32
        }
    } else {
        slider
    }
}

impl SpeedControls {
    pub open spec fn wf(&self) -> bool {
        self.slider <= SLIDER_MAX
    }

    /// The panel as it is first shown: paused, with the slider at
    /// `slider`.
    pub fn new(dev_mode: bool, slider: u32) -> (c: SpeedControls)
        requires
            slider <= SLIDER_MAX,
        ensures
            c.wf(),
            c.state == SpeedState::Paused,
            c.slider == slider,
            c.speed_cap == if dev_mode {
                SPEED_CAP_DEV
            } else {
                SPEED_CAP
            },
    {
        SpeedControls {
            state: SpeedState::Paused,
            slider,
            speed_cap: if dev_mode {
                SPEED_CAP_DEV
            } else {
                SPEED_CAP
            },
        }
    }

    pub open spec fn spec_is_paused(&self) -> bool {
        self.state == SpeedState::Paused
    }

    #[verifier::when_used_as_spec(spec_is_paused)]
    pub fn is_paused(&self) -> (paused: bool)
        ensures
            paused == self.spec_is_paused(),
    {
        match self.state {
            SpeedState::Paused => true,
            SpeedState::Running => false,
        }
    }

    /// Pauses the simulation. Pausing a paused one changes nothing.
    pub fn pause(&mut self)
        ensures
            final(self).is_paused(),
            final(self).slider == old(self).slider,
            final(self).speed_cap == old(self).speed_cap,
    {
        if !self.is_paused() {
            self.state = SpeedState::Paused;
        }
    }

    /// What an event leads to.
    ///
    /// The speed buttons move the slider. A click while paused resumes,
    /// and nothing else is done for this event. A click while running
    /// pauses; without one, the simulation is moved on if the time for
    /// that has come. Then the small step applies, then the large step,
    /// which leads to a time warp of ten simulated minutes, then the jump
    /// to a time.
    pub open spec fn spec_event(self, input: SpeedInput) -> (SpeedControls, SpeedOutcome) {
        let slider = spec_adjust(self.slider, input.speed_up_clicked, input.slow_down_clicked);
        if self.state == SpeedState::Paused && input.resume_or_pause_clicked {
            (
                SpeedControls { state: SpeedState::Running, slider, ..self },
                SpeedOutcome { fast_forward: false, small_step: false, transition: None },
            )
        } else {
            let pauses = self.state == SpeedState::Running && input.resume_or_pause_clicked;
            (
                SpeedControls {
                    state: if pauses {
                        SpeedState::Paused
                    } else {
                        self.state
                    },
                    slider,
                    ..self
                },
                SpeedOutcome {
                    fast_forward: self.state == SpeedState::Running && !pauses && input.is_update,
                    small_step: input.small_step_clicked,
                    transition: if input.large_step_clicked {
                        Some(
                            SpeedTransition::TimeWarp(
                                TimeWarpScreen {
                                    target: Tick(
                                        if input.now.0 + LARGE_STEP > u64::MAX {
                                            u64::MAX
                                        } else {
                                            (input.now.0 + LARGE_STEP) as u64
                                        },
                                    ),
                                },
                            ),
                        )
                    } else if input.jump_to_time_clicked {
                        Some(SpeedTransition::AskForTime)
                    } else {
                        None
                    },
                },
            )
        }
    }

    /// Takes an event, and says what the caller is to do.
    pub fn event(&mut self, input: &SpeedInput) -> (outcome: SpeedOutcome)
        requires
            old(self).wf(),
        ensures
            final(self).wf(),
            (*final(self), outcome) == old(self).spec_event(*input),
    {
        if input.speed_up_clicked && self.slider != SLIDER_MAX {
            self.slider = if self.slider >= SLIDER_MAX - ADJUST_SPEED {
                SLIDER_MAX
            } else {
                self.slider + ADJUST_SPEED
            };
        } else if input.slow_down_clicked && self.slider != 0 {
            self.slider = if self.slider <= ADJUST_SPEED {
                0
            } else {
                self.slider - ADJUST_SPEED
            };
        }
        let mut fast_forward = false;
        match self.state {
            SpeedState::Paused => {
                if input.resume_or_pause_clicked {
                    self.state = SpeedState::Running;
                    return SpeedOutcome { fast_forward: false, small_step: false, transition: None };
                }
            },
            SpeedState::Running => {
                if input.resume_or_pause_clicked {
                    self.pause();
                } else if input.is_update {
                    fast_forward = true;
                }
            },
        }
        let transition = if input.large_step_clicked {
            Some(
                SpeedTransition::TimeWarp(
                    TimeWarpScreen { target: Tick(input.now.0.saturating_add(LARGE_STEP)) },
                ),
            )
        } else if input.jump_to_time_clicked {
            Some(SpeedTransition::AskForTime)
        } else {
            None
        };
        SpeedOutcome { fast_forward, small_step: input.small_step_clicked, transition }
    }
}

impl TimeWarpScreen {
    /// What the time warp asks for: to leave if the way out was pressed;
    /// else, if the time for that has come, to fast-forward to the
    /// target; else nothing.
    pub open spec fn spec_plan(&self, escape_pressed: bool, is_update: bool, now: Tick) -> WarpPlan {
        if escape_pressed {
            WarpPlan::Leave
        } else if is_update {
            WarpPlan::Warp(
                if now.0 <= self.target.0 {
                    (self.target.0 - now.0) as u64
                } else {
                    0
                },
            )
        } else {
            WarpPlan::Wait
        }
    }

    #[verifier::when_used_as_spec(spec_plan)]
    pub fn plan(&self, escape_pressed: bool, is_update: bool, now: Tick) -> (p: WarpPlan)
        ensures
            p == self.spec_plan(escape_pressed, is_update, now),
    {
        if escape_pressed {
            WarpPlan::Leave
        } else if is_update {
            WarpPlan::Warp(
                if now.0 <= self.target.0 {
                    self.target.0 - now.0
                } else {
                    0
                },
            )
        } else {
            WarpPlan::Wait
        }
    }

    /// The time warp is done when the simulation is at the target.
    pub fn is_done(&self, now: Tick) -> (done: bool)
        ensures
            done == (now == self.target),
    {
        now.0 == self.target.0
    }
}

} // verus!

use traffic_sim::speed::{
    SpeedControls, SpeedInput, SpeedOutcome, SpeedState, SpeedTransition, TimeWarpScreen, WarpPlan,
};
use traffic_sim::units::Tick;

fn quiet(now: u64) -> SpeedInput {
    SpeedInput {
        speed_up_clicked: false,
        slow_down_clicked: false,
        resume_or_pause_clicked: false,
        is_update: false,
        small_step_clicked: false,
        large_step_clicked: false,
        jump_to_time_clicked: false,
        now: Tick(now),
    }
}

fn nothing() -> SpeedOutcome {
    SpeedOutcome { fast_forward: false, small_step: false, transition: None }
}

#[test]
fn pausing_a_paused_panel_changes_nothing() {
    let mut c = SpeedControls::new(false, 951);
    assert!(c.is_paused());
    c.pause();
    assert!(c.is_paused());
    assert_eq!(c.state, SpeedState::Paused);
    assert_eq!(c.slider, 951);
}

#[test]
fn the_cap_depends_on_the_mode() {
    assert_eq!(SpeedControls::new(false, 0).speed_cap, 600);
    assert_eq!(SpeedControls::new(true, 10_000).speed_cap, 3600);
}

#[test]
fn resume_then_run_then_pause() {
    let mut c = SpeedControls::new(false, 951);
    // Paused: the time to move on has come, but nothing moves.
    assert_eq!(c.event(&SpeedInput { is_update: true, ..quiet(0) }), nothing());
    assert!(c.is_paused());
    // The click that resumes does nothing else, whatever else was
    // pressed.
    let busy = SpeedInput {
        resume_or_pause_clicked: true,
        is_update: true,
        small_step_clicked: true,
        large_step_clicked: true,
        jump_to_time_clicked: true,
        ..quiet(0)
    };
    assert_eq!(c.event(&busy), nothing());
    assert!(!c.is_paused());
    // Running: the simulation moves on when the time has come.
    assert_eq!(c.event(&quiet(0)), nothing());
    assert_eq!(
        c.event(&SpeedInput { is_update: true, ..quiet(0) }),
        SpeedOutcome { fast_forward: true, ..nothing() }
    );
    // The click that pauses comes before moving on.
    let stop = SpeedInput { resume_or_pause_clicked: true, is_update: true, ..quiet(0) };
    assert_eq!(c.event(&stop), nothing());
    assert!(c.is_paused());
    c.pause();
    assert!(c.is_paused());
}

#[test]
fn steps_and_jumps() {
    let mut c = SpeedControls::new(false, 951);
    assert_eq!(
        c.event(&SpeedInput { small_step_clicked: true, ..quiet(0) }),
        SpeedOutcome { small_step: true, ..nothing() }
    );
    // Ten simulated minutes are six thousand ticks.
    assert_eq!(
        c.event(&SpeedInput { large_step_clicked: true, ..quiet(250) }),
        SpeedOutcome {
            transition: Some(SpeedTransition::TimeWarp(TimeWarpScreen { target: Tick(6250) })),
            ..nothing()
        }
    );
    assert_eq!(
        c.event(&SpeedInput { jump_to_time_clicked: true, ..quiet(250) }),
        SpeedOutcome { transition: Some(SpeedTransition::AskForTime), ..nothing() }
    );
    // The large step comes before the jump, the small step before both.
    let all = SpeedInput {
        small_step_clicked: true,
        large_step_clicked: true,
        jump_to_time_clicked: true,
        ..quiet(u64::MAX - 5)
    };
    assert_eq!(
        c.event(&all),
        SpeedOutcome {
            fast_forward: false,
            small_step: true,
            transition: Some(SpeedTransition::TimeWarp(TimeWarpScreen { target: Tick(u64::MAX) })),
        }
    );
    assert!(c.is_paused());
}

#[test]
fn the_slider_moves_by_one_percent_and_stays_on_its_track() {
    let up = SpeedInput { speed_up_clicked: true, ..quiet(0) };
    let down = SpeedInput { slow_down_clicked: true, ..quiet(0) };
    let both = SpeedInput { speed_up_clicked: true, slow_down_clicked: true, ..quiet(0) };
    let slider_after = |start: u32, input: &SpeedInput| {
        let mut c = SpeedControls::new(false, start);
        c.event(input);
        c.slider
    };
    assert_eq!(slider_after(951, &up), 1051);
    assert_eq!(slider_after(951, &down), 851);
    assert_eq!(slider_after(9900, &up), 10_000);
    assert_eq!(slider_after(9950, &up), 10_000);
    assert_eq!(slider_after(10_000, &up), 10_000);
    assert_eq!(slider_after(100, &down), 0);
    assert_eq!(slider_after(50, &down), 0);
    assert_eq!(slider_after(0, &down), 0);
    // Up comes first; at the top, down gets its turn.
    assert_eq!(slider_after(951, &both), 1051);
    assert_eq!(slider_after(10_000, &both), 9900);
    assert_eq!(slider_after(951, &quiet(0)), 951);
}

#[test]
fn a_time_warp_goes_to_its_target() {
    let warp = TimeWarpScreen { target: Tick(500) };
    assert_eq!(warp.plan(true, true, Tick(100)), WarpPlan::Leave);
    assert_eq!(warp.plan(false, true, Tick(100)), WarpPlan::Warp(400));
    assert_eq!(warp.plan(false, true, Tick(500)), WarpPlan::Warp(0));
    // The target lies behind: nothing is left to do.
    assert_eq!(warp.plan(false, true, Tick(501)), WarpPlan::Warp(0));
    assert_eq!(warp.plan(false, false, Tick(100)), WarpPlan::Wait);
    assert!(!warp.is_done(Tick(499)));
    assert!(warp.is_done(Tick(500)));
    assert!(!warp.is_done(Tick(501)));
}

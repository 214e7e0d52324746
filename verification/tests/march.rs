use lensing::color::Color;
use lensing::march::{PixelMarch, PixelState, StepObservation, MAX_STEPS};

fn quiet() -> StepObservation {
    StepObservation {
        captured: false,
        disk_hit: false,
        disk_r: 0,
        disk_g: 0,
        escaped: false,
        star: false,
    }
}

#[test]
fn fresh_driver_is_black_and_traveling() {
    let m = PixelMarch::new();
    assert_eq!(m.state, PixelState::Traveling);
    assert_eq!(m.color(), Color { r: 0, g: 0, b: 0 });
    assert!(!m.done());
    assert_eq!(m.steps, 0);
}

#[test]
fn capture_outranks_disk_and_escape() {
    let mut m = PixelMarch::new();
    m.step(StepObservation {
        captured: true,
        disk_hit: true,
        disk_r: 200,
        disk_g: 100,
        escaped: true,
        star: true,
    });
    assert_eq!(m.state, PixelState::Captured);
    assert_eq!(m.color(), Color { r: 0, g: 0, b: 0 });
    assert!(m.done());
}

#[test]
fn disk_outranks_escape() {
    let mut m = PixelMarch::new();
    m.step(StepObservation {
        captured: false,
        disk_hit: true,
        disk_r: 200,
        disk_g: 100,
        escaped: true,
        star: true,
    });
    assert_eq!(m.state, PixelState::DiskHit);
    assert_eq!(m.color(), Color { r: 200, g: 100, b: 0 });
    assert!(m.done());
}

#[test]
fn escape_with_bright_star_is_white() {
    let mut m = PixelMarch::new();
    let mut obs = quiet();
    obs.escaped = true;
    obs.star = true;
    m.step(obs);
    assert_eq!(m.state, PixelState::Escaped);
    assert_eq!(m.color(), Color { r: 255, g: 255, b: 255 });
    assert!(m.done());
}

#[test]
fn escape_without_star_is_black() {
    let mut m = PixelMarch::new();
    let mut obs = quiet();
    obs.escaped = true;
    m.step(obs);
    assert_eq!(m.state, PixelState::Escaped);
    assert_eq!(m.color(), Color { r: 0, g: 0, b: 0 });
    assert!(m.done());
}

#[test]
fn spent_budget_leaves_the_pixel_black() {
    let mut m = PixelMarch::new();
    let mut taken: u32 = 0;
    while !m.done() {
        m.step(quiet());
        taken += 1;
    }
    assert_eq!(taken, MAX_STEPS);
    assert_eq!(m.steps, MAX_STEPS);
    assert_eq!(m.state, PixelState::Traveling);
    assert_eq!(m.color(), Color { r: 0, g: 0, b: 0 });
}

#[test]
fn ray_starting_inside_the_horizon_is_captured_at_once() {
    // A ray placed at distance 0.5 from the origin lies inside the event
    // horizon of radius 1.0, so the very first step observes a capture.
    let distance: f32 = 0.5;
    let schwarzschild_radius: f32 = 1.0;
    let captured = distance * distance < schwarzschild_radius * schwarzschild_radius;
    assert!(captured);
    let mut obs = quiet();
    obs.captured = captured;
    let mut m = PixelMarch::new();
    m.step(obs);
    assert!(m.done());
    assert_eq!(m.steps, 1);
    assert_eq!(m.state, PixelState::Captured);
    assert_eq!(m.color(), Color { r: 0, g: 0, b: 0 });
}

#[test]
fn disk_hit_at_radial_distance_two_shows_the_banded_pattern() {
    // A ray settling into |y| < 0.1 at radial x/z distance 2.0: the pattern
    // is (sin(2.0 * 5.0) + 1) / 2, and the channels scale 255 and 120.
    let dist_from_center: f32 = 2.0;
    let pattern = ((dist_from_center * 5.0).sin() + 1.0) * 0.5;
    let r = (255.0 * pattern) as u8;
    let g = (120.0 * pattern) as u8;
    assert_eq!(r, 58);
    assert_eq!(g, 27);
    let mut obs = quiet();
    obs.disk_hit = true;
    obs.disk_r = r;
    obs.disk_g = g;
    let mut m = PixelMarch::new();
    m.step(obs);
    assert_eq!(m.color(), Color { r: 58, g: 27, b: 0 });
}

#[test]
fn escape_along_the_x_axis_sees_no_star() {
    // Direction (1, 0, 0): star value |sin(1) * sin(0)|^10 is zero, which
    // never exceeds the 0.5 star threshold, so the background stays black.
    let dir_x: f32 = 1.0;
    let dir_z: f32 = 0.0;
    let star_val = (dir_x.sin() * dir_z.sin()).abs().powf(10.0);
    assert!(star_val <= 0.5);
    let mut obs = quiet();
    obs.escaped = true;
    obs.star = star_val > 0.5;
    let mut m = PixelMarch::new();
    m.step(obs);
    assert_eq!(m.state, PixelState::Escaped);
    assert_eq!(m.color(), Color { r: 0, g: 0, b: 0 });
}

#[test]
fn identical_observations_decide_identical_colors() {
    let mut observations = Vec::new();
    for i in 0..MAX_STEPS {
        let mut obs = quiet();
        if i == 40 {
            obs.disk_hit = true;
            obs.disk_r = 58;
            obs.disk_g = 27;
        }
        observations.push(obs);
    }
    let mut first = PixelMarch::new();
    let mut second = PixelMarch::new();
    for obs in &observations {
        if first.done() {
            break;
        }
        first.step(*obs);
        second.step(*obs);
        assert_eq!(first.color(), second.color());
        assert_eq!(first.state, second.state);
    }
    assert_eq!(first.color(), second.color());
    assert_eq!(first.color(), Color { r: 58, g: 27, b: 0 });
}

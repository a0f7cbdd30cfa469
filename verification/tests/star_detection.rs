use star_stacker::errors::PipelineError;
use star_stacker::star_detection::{probe_response_threshold, probe_step, ProbeStep};

// A strictly decreasing count profile whose walk must climb: counts start
// above the ceiling at the mid-range start and first dip inside the window
// at sensitivity 200.
#[test]
fn probe_climbs_to_the_window() {
    let counts: Vec<usize> = (0..256).map(|s| 1000 - 3 * s).collect();
    let s = probe_response_threshold(&counts, 100, 400).unwrap();
    assert_eq!(s, 200);
    assert!((100..=400).contains(&counts[s as usize]));
}

// A profile that starts below the target and re-enters the window on the
// way down.
#[test]
fn probe_descends_to_the_window() {
    let counts: Vec<usize> = (0..256).map(|s| if s <= 300 { 300 - s } else { 0 }).collect();
    let s = probe_response_threshold(&counts, 220, 750).unwrap();
    assert_eq!(s, 80);
    assert_eq!(counts[80], 220);
}

// No sensitivity above the floor reaches the target: the walk clamps to 1.
#[test]
fn probe_clamps_to_floor() {
    let counts: Vec<usize> = vec![10; 256];
    let s = probe_response_threshold(&counts, 20, 750).unwrap();
    assert_eq!(s, 1);
}

// A count already inside the window ends the walk at the start value.
#[test]
fn probe_accepts_start() {
    let counts: Vec<usize> = vec![50; 256];
    let s = probe_response_threshold(&counts, 20, 750).unwrap();
    assert_eq!(s, 100);
}

#[test]
fn probe_rejects_target_above_ceiling() {
    let counts: Vec<usize> = vec![0; 256];
    assert_eq!(
        probe_response_threshold(&counts, 751, 750).unwrap_err(),
        PipelineError::InvalidInput
    );
}

#[test]
fn probe_step_decisions() {
    assert_eq!(probe_step(100, 300, 20, 750), ProbeStep::Done(100));
    assert_eq!(probe_step(100, 800, 20, 750), ProbeStep::Next(102));
    assert_eq!(probe_step(254, 800, 20, 750), ProbeStep::Next(255));
    assert_eq!(probe_step(100, 5, 20, 750), ProbeStep::Next(98));
    assert_eq!(probe_step(2, 5, 20, 750), ProbeStep::Done(1));
    assert_eq!(probe_step(1, 5, 20, 750), ProbeStep::Done(1));
}

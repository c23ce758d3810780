use bulk_converter::engine::{Action, Engine, EngineError, MAX_IN_FLIGHT};

fn files(n: usize) -> Vec<String> {
    (0..n).map(|i| format!("dir/file{}.png", i)).collect()
}

/// Drives the engine to completion, granting every launch a fresh handle
/// and reporting the exit status `verdict(source)` for each reaped process.
/// Returns the largest number of concurrently live handles ever seen and
/// the destinations that were launched.
fn drive(e: &mut Engine, verdict: &dyn Fn(&str) -> bool) -> (usize, Vec<String>) {
    let mut next_handle: u64 = 0;
    let mut live: Vec<(u64, String)> = Vec::new();
    let mut max_live: usize = 0;
    let mut dests: Vec<String> = Vec::new();
    loop {
        match e.next_action() {
            Action::Launch { source, dest } => {
                live.push((next_handle, source));
                dests.push(dest);
                e.on_launched(next_handle);
                next_handle += 1;
                if live.len() > max_live {
                    max_live = live.len();
                }
            }
            Action::Reap { handle } => {
                let pos = live.iter().position(|(h, _)| *h == handle).unwrap();
                let (_, source) = live.remove(pos);
                e.on_reaped(verdict(&source));
            }
            Action::Finished => break,
        }
    }
    (max_live, dests)
}

#[test]
fn concurrency_never_exceeds_ceiling() {
    let mut e = Engine::new(files(40), "jpg".to_string(), None);
    let (max_live, _) = drive(&mut e, &|_| true);
    assert_eq!(max_live, MAX_IN_FLIGHT);
    assert_eq!(e.outcomes.len(), 40);
    assert!(e.error.is_none());
}

#[test]
fn small_batch_never_fills_queue() {
    let mut e = Engine::new(files(5), "jpg".to_string(), None);
    let (max_live, _) = drive(&mut e, &|_| true);
    assert_eq!(max_live, 5);
    assert_eq!(e.outcomes.len(), 5);
}

#[test]
fn admission_waits_for_oldest() {
    // With more files than slots, the engine must not launch file K before
    // asking to reap the handle of file 0, and the reap it asks for is
    // always the oldest live handle.
    let mut e = Engine::new(files(MAX_IN_FLIGHT + 4), "jpg".to_string(), None);
    let mut next_handle: u64 = 0;
    let mut live: Vec<u64> = Vec::new();
    let mut launched: usize = 0;
    let mut reaped_first = false;
    loop {
        match e.next_action() {
            Action::Launch { .. } => {
                if launched == MAX_IN_FLIGHT {
                    assert!(reaped_first, "file K+1 admitted before file 1 was reaped");
                }
                live.push(next_handle);
                e.on_launched(next_handle);
                next_handle += 1;
                launched += 1;
            }
            Action::Reap { handle } => {
                assert_eq!(handle, live[0], "engine must reap the oldest handle first");
                if handle == 0 {
                    reaped_first = true;
                }
                live.remove(0);
                e.on_reaped(true);
            }
            Action::Finished => break,
        }
    }
    assert_eq!(e.outcomes.len(), MAX_IN_FLIGHT + 4);
}

#[test]
fn outcomes_follow_submission_order() {
    let names = files(25);
    let mut e = Engine::new(names.clone(), "jpg".to_string(), None);
    drive(&mut e, &|_| true);
    let reported: Vec<String> = e.outcomes.iter().map(|o| o.source.clone()).collect();
    assert_eq!(reported, names);
}

#[test]
fn failed_conversion_does_not_stop_the_batch() {
    let mut e = Engine::new(files(3), "jpg".to_string(), None);
    drive(&mut e, &|source| source != "dir/file1.png");
    assert_eq!(e.outcomes.len(), 3);
    assert!(e.outcomes[0].success);
    assert!(!e.outcomes[1].success);
    assert_eq!(e.outcomes[1].source, "dir/file1.png");
    assert!(e.outcomes[2].success);
    assert!(e.error.is_none());
}

#[test]
fn launch_failure_aborts_and_keeps_outcomes() {
    let mut e = Engine::new(files(MAX_IN_FLIGHT + 2), "jpg".to_string(), None);
    let mut next_handle: u64 = 0;
    let mut reaps: usize = 0;
    loop {
        match e.next_action() {
            Action::Launch { .. } => {
                if reaps == 1 {
                    // The converter binary vanished: this launch fails.
                    e.on_launch_failed();
                    break;
                }
                e.on_launched(next_handle);
                next_handle += 1;
            }
            Action::Reap { .. } => {
                e.on_reaped(true);
                reaps += 1;
            }
            Action::Finished => break,
        }
    }
    assert!(matches!(e.error, Some(EngineError::Launch)));
    // The one outcome reported before the failure stands unchanged.
    assert_eq!(e.outcomes.len(), 1);
    assert_eq!(e.outcomes[0].source, "dir/file0.png");
    assert!(e.outcomes[0].success);
    // No further work is handed out.
    assert!(matches!(e.next_action(), Action::Finished));
}

#[test]
fn wait_failure_aborts() {
    let mut e = Engine::new(files(2), "jpg".to_string(), None);
    match e.next_action() {
        Action::Launch { .. } => e.on_launched(7),
        _ => unreachable!(),
    }
    match e.next_action() {
        Action::Launch { .. } => e.on_launched(8),
        _ => unreachable!(),
    }
    // No files left: the engine drains, oldest first.
    match e.next_action() {
        Action::Reap { handle } => {
            assert_eq!(handle, 7);
            e.on_wait_failed();
        }
        _ => unreachable!(),
    }
    assert!(matches!(e.error, Some(EngineError::Wait)));
    assert_eq!(e.outcomes.len(), 0);
    assert!(matches!(e.next_action(), Action::Finished));
}

#[test]
fn destinations_flatten_into_output_dir() {
    let sources = vec!["a/x.png".to_string(), "b/x.png".to_string()];
    let mut e = Engine::new(sources, "jpg".to_string(), Some("out".to_string()));
    let (_, dests) = drive(&mut e, &|_| true);
    // Both sources map to the same destination: last writer wins, silently.
    assert_eq!(dests, vec!["out/x.jpg", "out/x.jpg"]);
}

#[test]
fn rerun_overwrites_same_destinations() {
    // Idempotence is not claimed: a second run on the same inputs with no
    // output directory computes the very same destinations and overwrites
    // the first run's outputs. That is expected, not a bug.
    let names = files(6);
    let mut first = Engine::new(names.clone(), "jpg".to_string(), None);
    let (_, dests_first) = drive(&mut first, &|_| true);
    let mut second = Engine::new(names, "jpg".to_string(), None);
    let (_, dests_second) = drive(&mut second, &|_| true);
    assert_eq!(dests_first, dests_second);
    assert_eq!(dests_first[0], "dir/file0.jpg");
    assert_eq!(first.outcomes.len(), second.outcomes.len());
}

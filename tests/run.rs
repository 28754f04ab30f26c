use rails_cookies_monster::run::{exit_code, first_stage, next_stage, RunError, Stage};

#[test]
fn no_matching_version_ends_the_run_at_once() {
    assert_eq!(first_stage(0), Stage::Exit(RunError::NoMatchingVersion));
    assert_eq!(exit_code(first_stage(0)), 1);
    assert_eq!(first_stage(3), Stage::BuildBaseImages);
}

#[test]
fn successful_run_passes_every_stage() {
    let mut s = first_stage(2);
    let mut seen = vec![s];
    while s != Stage::Finished {
        s = next_stage(s, true);
        seen.push(s);
    }
    assert_eq!(
        seen,
        vec![
            Stage::BuildBaseImages,
            Stage::BuildReleaseImages,
            Stage::StartContainers,
            Stage::PollCookies,
            Stage::Teardown { failure: None },
            Stage::CheckCookies,
            Stage::Finished,
        ]
    );
    assert_eq!(exit_code(s), 0);
}

#[test]
fn build_failure_ends_the_run() {
    assert_eq!(next_stage(Stage::BuildBaseImages, false), Stage::Exit(RunError::BuildFailed));
    assert_eq!(next_stage(Stage::BuildReleaseImages, false), Stage::Exit(RunError::BuildFailed));
}

#[test]
fn start_failure_still_tears_down() {
    let s = next_stage(Stage::StartContainers, false);
    assert_eq!(s, Stage::Teardown { failure: Some(RunError::StartFailed) });
    assert_eq!(next_stage(s, true), Stage::Exit(RunError::StartFailed));
    assert_eq!(next_stage(Stage::PollCookies, false), Stage::Teardown { failure: None });
    assert_eq!(next_stage(Stage::Teardown { failure: None }, false), Stage::CheckCookies);
    assert_eq!(next_stage(Stage::CheckCookies, false), Stage::Exit(RunError::CheckFailed));
}

use grace::update::{
    release_version, version_from_capture, UpdateAction, UpdateError, UpdateOutcome, Updater,
    MIN_RELEASE_BYTES, REDIRECT_STATUS,
};

const LOCATION: &str = "https://github.com/trevyn/scarlett/releases/download/brave-otter/scarlett";

fn started(build: &str) -> Updater {
    let (u, a) = Updater::start(Some(build.to_string()));
    assert!(matches!(a, UpdateAction::RequestLatest));
    u
}

#[test]
fn the_version_is_read_from_the_location() {
    assert_eq!(release_version(LOCATION).unwrap(), "brave-otter");
    assert!(matches!(release_version("https://example.com/releases/download/v1.2/x"), Err(UpdateError::NoVersion)));
    assert!(matches!(release_version("/releases/download/Brave-otter/"), Err(UpdateError::NoVersion)));
    assert_eq!(release_version("x/releases/download/a-b/y/releases/download/c-d/").unwrap(), "a-b");
}

#[test]
fn capture_results_are_classified() {
    assert_eq!(version_from_capture(true, Some("a-b".to_string())).unwrap(), "a-b");
    assert!(matches!(version_from_capture(true, None), Err(UpdateError::NoVersion)));
    assert!(matches!(version_from_capture(false, Some("a-b".to_string())), Err(UpdateError::BadPattern)));
}

#[test]
fn development_builds_are_not_updated() {
    let (_, a) = Updater::start(None);
    assert!(matches!(a, UpdateAction::Finish(UpdateOutcome::DevBuild)));
}

#[test]
fn anything_but_a_redirect_is_an_error() {
    let mut u = started("calm-fox");
    assert!(matches!(u.on_redirect(200, Some(LOCATION.to_string())), UpdateAction::Fail(UpdateError::UnexpectedStatus(200))));
}

#[test]
fn a_redirect_needs_a_location_with_a_version() {
    let mut u = started("calm-fox");
    assert!(matches!(u.on_redirect(REDIRECT_STATUS, None), UpdateAction::Fail(UpdateError::MissingLocation)));
    let mut u = started("calm-fox");
    assert!(matches!(u.on_redirect(302, Some("https://example.com/".to_string())), UpdateAction::Fail(UpdateError::NoVersion)));
}

#[test]
fn the_latest_build_is_not_updated() {
    let mut u = started("brave-otter");
    assert!(matches!(u.on_redirect(302, Some(LOCATION.to_string())), UpdateAction::Finish(UpdateOutcome::UpToDate)));
}

#[test]
fn a_newer_release_is_downloaded_checked_and_saved() {
    let mut u = started("calm-fox");
    match u.on_redirect(302, Some(LOCATION.to_string())) {
        UpdateAction::Download { url } => assert_eq!(url, LOCATION),
        other => panic!("unexpected {:?}", other),
    }
    let total = 20_000_000u64;
    assert!(matches!(u.on_download_response(Some(total)), UpdateAction::ReceiveChunks));
    assert!(matches!(u.on_chunk(5_000_000), UpdateAction::Progress { percent: 25 }));
    assert!(matches!(u.on_chunk(14_999_999), UpdateAction::Progress { percent: 99 }));
    assert!(matches!(u.on_chunk(1), UpdateAction::Progress { percent: 100 }));
    assert!(matches!(u.on_download_finished(), UpdateAction::Save));
}

#[test]
fn downloads_need_a_length_of_at_least_the_minimum() {
    let mut u = started("calm-fox");
    u.on_redirect(302, Some(LOCATION.to_string()));
    assert!(matches!(u.on_download_response(None), UpdateAction::Fail(UpdateError::MissingContentLength)));
    let mut u = started("calm-fox");
    u.on_redirect(302, Some(LOCATION.to_string()));
    assert!(matches!(u.on_download_response(Some(MIN_RELEASE_BYTES as u64 - 1)), UpdateAction::Finish(UpdateOutcome::TooSmall)));
    let mut u = started("calm-fox");
    u.on_redirect(302, Some(LOCATION.to_string()));
    assert!(matches!(u.on_download_response(Some(MIN_RELEASE_BYTES as u64)), UpdateAction::ReceiveChunks));
}

#[test]
fn an_incomplete_download_is_not_saved() {
    let mut u = started("calm-fox");
    u.on_redirect(302, Some(LOCATION.to_string()));
    u.on_download_response(Some(12_000_000));
    u.on_chunk(11_999_999);
    assert!(matches!(u.on_download_finished(), UpdateAction::Finish(UpdateOutcome::Incomplete)));
}

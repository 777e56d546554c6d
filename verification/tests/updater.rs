use core_probe::updater::{select_update, ReleaseCandidate};

fn release(version: &str, body: Option<&str>) -> ReleaseCandidate {
    ReleaseCandidate { version: version.to_string(), body: body.map(str::to_string) }
}

#[test]
fn picks_the_highest_newer_release() {
    let releases = vec![
        release("v0.2.0", Some("second")),
        release("v0.1.5", Some("older")),
        release("not-a-version", Some("junk")),
        release("v0.2.1", None),
        release("v0.1.0", Some("current")),
    ];
    let info = select_update("0.1.0", &releases).unwrap().expect("an update");
    assert_eq!(info.version, "0.2.1");
    assert_eq!(info.body, "");
}

#[test]
fn versions_compare_numerically_not_as_text() {
    let releases = vec![release("v1.10.0", Some("ten")), release("v1.9.3", Some("nine"))];
    let info = select_update("1.2.3", &releases).unwrap().unwrap();
    assert_eq!(info.version, "1.10.0");
    assert_eq!(info.body, "ten");
}

#[test]
fn pre_release_is_below_the_release() {
    let releases = vec![release("v2.0.0-rc.1", Some("rc")), release("2.0.0", Some("final"))];
    let info = select_update("1.0.0", &releases).unwrap().unwrap();
    assert_eq!(info.version, "2.0.0");
    assert_eq!(info.body, "final");

    let only_rc = vec![release("vv2.0.0-rc.1+build.5", Some("rc"))];
    let info = select_update("1.0.0", &only_rc).unwrap().unwrap();
    assert_eq!(info.version, "2.0.0-rc.1+build.5");
}

#[test]
fn no_newer_release_gives_none() {
    let releases = vec![release("v0.1.0", None), release("v0.0.9", None), release("", None)];
    assert!(select_update("0.1.0", &releases).unwrap().is_none());
    assert!(select_update("0.1.0", &[]).unwrap().is_none());
}

#[test]
fn invalid_current_version_is_an_error() {
    let err = select_update("", &[release("v9.9.9", None)]).unwrap_err();
    assert_eq!(err, "invalid current version: empty string, expected a semver version");
}

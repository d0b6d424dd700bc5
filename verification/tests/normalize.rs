use bevy_patch::api_url;
use bevy_patch::user_friendly_repo;

#[test]
fn owner_only_gets_repo_host_and_scheme() {
    assert_eq!(user_friendly_repo("aceeri"), "https://github.com/aceeri/bevy");
}

#[test]
fn owner_and_repo() {
    assert_eq!(user_friendly_repo("aceeri/bevy"), "https://github.com/aceeri/bevy");
}

#[test]
fn host_and_path() {
    assert_eq!(user_friendly_repo("github.com/aceeri/bevy"), "https://github.com/aceeri/bevy");
}

#[test]
fn http_becomes_https() {
    assert_eq!(
        user_friendly_repo("http://github.com/aceeri/bevy"),
        "https://github.com/aceeri/bevy"
    );
}

#[test]
fn canonical_reference_unchanged() {
    assert_eq!(
        user_friendly_repo("https://github.com/bevyengine/bevy"),
        "https://github.com/bevyengine/bevy"
    );
}

#[test]
fn normalize_is_idempotent_on_samples() {
    for s in ["aceeri", "aceeri/bevy", "http://github.com/aceeri/bevy", "", "no slash here"] {
        let once = user_friendly_repo(s);
        assert_eq!(user_friendly_repo(&once), once);
    }
}

#[test]
fn empty_reference_still_yields_a_url() {
    assert_eq!(user_friendly_repo(""), "https://github.com//bevy");
}

#[test]
fn api_url_strips_git_suffix() {
    assert_eq!(
        api_url("https://github.com/aceeri/bevy.git", "main"),
        "https://api.github.com/repos/aceeri/bevy/contents/crates?ref=main"
    );
}

#[test]
fn api_url_from_shorthand() {
    assert_eq!(
        api_url("aceeri", "dev"),
        "https://api.github.com/repos/aceeri/bevy/contents/crates?ref=dev"
    );
}

#[test]
fn api_url_without_git_suffix() {
    assert_eq!(
        api_url("https://github.com/bevyengine/bevy", "main"),
        "https://api.github.com/repos/bevyengine/bevy/contents/crates?ref=main"
    );
}

#[test]
fn api_url_keeps_inner_git_text() {
    assert_eq!(
        api_url("https://github.com/aceeri/bevy.github", "main"),
        "https://api.github.com/repos/aceeri/bevy.github/contents/crates?ref=main"
    );
}

#[test]
fn every_http_occurrence_is_corrected() {
    assert_eq!(
        user_friendly_repo("https://github.com/a/http://b"),
        "https://github.com/a/https://b"
    );
    assert_eq!(
        user_friendly_repo("http://github.com/a/http://b"),
        "https://github.com/a/https://b"
    );
}

#[test]
fn api_url_replaces_every_host_occurrence_without_rescanning() {
    assert_eq!(
        api_url("github.com/github.com/x", "r"),
        "https://api.github.com/repos/api.github.com/repos/x/contents/crates?ref=r"
    );
}

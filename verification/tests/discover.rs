use bevy_patch::crates_from_github_response;
use bevy_patch::crates_from_local_listing;
use bevy_patch::DiscoverError;
use bevy_patch::GithubContent;
use bevy_patch::GithubError;
use bevy_patch::LocalEntry;
use bevy_patch::ResponseBody;

fn entry(name: &str, ty: &str) -> GithubContent {
    GithubContent { name: name.to_string(), content_type: ty.to_string() }
}

#[test]
fn remote_listing_sorts_and_keeps_directories_only() {
    let body = ResponseBody::Listing(vec![entry("b", "dir"), entry("a", "dir"), entry("c", "file")]);
    let r = crates_from_github_response(200, body).unwrap();
    assert_eq!(r, vec!["a".to_string(), "b".to_string()]);
}

#[test]
fn remote_listing_empty() {
    let body = ResponseBody::Listing(Vec::new());
    let r = crates_from_github_response(200, body).unwrap();
    assert!(r.is_empty());
}

#[test]
fn remote_failure_carries_status_and_message() {
    let body = ResponseBody::Failure(GithubError {
        message: "Not Found".to_string(),
        status: "404".to_string(),
    });
    match crates_from_github_response(404, body) {
        Err(DiscoverError::RemoteApiError(m)) => {
            assert_eq!(m, "404: Not Found");
            assert!(m.contains("404: Not Found"));
        }
        other => panic!("expected a remote API error, got {:?}", other),
    }
}

#[test]
fn remote_unparsed_success_body_is_a_transport_error() {
    match crates_from_github_response(200, ResponseBody::Unparsed) {
        Err(DiscoverError::TransportError(m)) => {
            assert_eq!(m, "Failed to parse GitHub response");
        }
        other => panic!("expected a transport error, got {:?}", other),
    }
}

#[test]
fn remote_unparsed_failure_body_is_a_transport_error() {
    match crates_from_github_response(500, ResponseBody::Unparsed) {
        Err(DiscoverError::TransportError(_)) => {}
        other => panic!("expected a transport error, got {:?}", other),
    }
}

#[test]
fn local_listing_keeps_directories_and_sorts() {
    let entries = vec![
        LocalEntry { name: Some("foo".to_string()), is_dir: true },
        LocalEntry { name: Some("bar".to_string()), is_dir: true },
        LocalEntry { name: Some("readme.txt".to_string()), is_dir: false },
    ];
    let r = crates_from_local_listing(entries).unwrap();
    assert_eq!(r, vec!["bar".to_string(), "foo".to_string()]);
}

#[test]
fn local_unreadable_directory_name_is_an_io_error() {
    let entries = vec![
        LocalEntry { name: Some("foo".to_string()), is_dir: true },
        LocalEntry { name: None, is_dir: true },
    ];
    match crates_from_local_listing(entries) {
        Err(DiscoverError::IoError(m)) => assert_eq!(m, "couldn't convert os string"),
        other => panic!("expected an I/O error, got {:?}", other),
    }
}

#[test]
fn local_unreadable_file_name_is_ignored() {
    let entries = vec![
        LocalEntry { name: None, is_dir: false },
        LocalEntry { name: Some("util".to_string()), is_dir: true },
    ];
    let r = crates_from_local_listing(entries).unwrap();
    assert_eq!(r, vec!["util".to_string()]);
}

#[test]
fn remote_listing_keeps_duplicate_names() {
    let body = ResponseBody::Listing(vec![entry("a", "dir"), entry("a", "dir")]);
    let r = crates_from_github_response(200, body).unwrap();
    assert_eq!(r, vec!["a".to_string(), "a".to_string()]);
}

#[test]
fn remote_failure_body_under_success_status_is_a_transport_error() {
    let body = ResponseBody::Failure(GithubError {
        message: "odd".to_string(),
        status: "200".to_string(),
    });
    match crates_from_github_response(200, body) {
        Err(DiscoverError::TransportError(_)) => {}
        other => panic!("expected a transport error, got {:?}", other),
    }
}

#[test]
fn local_empty_listing() {
    let r = crates_from_local_listing(Vec::new()).unwrap();
    assert!(r.is_empty());
}

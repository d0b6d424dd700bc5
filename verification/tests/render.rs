use bevy_patch::join_lines;
use bevy_patch::render_patch_block;
use bevy_patch::select_git_ref;
use bevy_patch::GitRef;
use bevy_patch::SourceTarget;

#[test]
fn render_local_target() {
    let t = SourceTarget::Local("/repo".to_string());
    let lines = render_patch_block(&t, &vec!["a".to_string(), "b".to_string()]);
    assert_eq!(
        lines,
        vec![
            "[patch.crates-io]".to_string(),
            "# Bevy Patch".to_string(),
            "bevy = { path = \"/repo\" }".to_string(),
            "a = { path = \"/repo/crates/a\" }".to_string(),
            "b = { path = \"/repo/crates/b\" }".to_string(),
        ]
    );
}

#[test]
fn render_remote_tag_uses_one_specifier_on_every_line() {
    let t = SourceTarget::Remote(
        "https://github.com/x/bevy".to_string(),
        GitRef::Tag("v1".to_string()),
    );
    let lines = render_patch_block(&t, &vec!["a".to_string()]);
    assert_eq!(lines.len(), 4);
    assert_eq!(lines[2], "bevy = { git = \"https://github.com/x/bevy\", tag = \"v1\" }");
    assert_eq!(lines[3], "a = { git = \"https://github.com/x/bevy\", tag = \"v1\" }");
}

#[test]
fn render_remote_branch() {
    let t = SourceTarget::Remote(
        "https://github.com/x/bevy".to_string(),
        GitRef::Branch("dev".to_string()),
    );
    let lines = render_patch_block(&t, &Vec::new());
    assert_eq!(lines[2], "bevy = { git = \"https://github.com/x/bevy\", branch = \"dev\" }");
}

#[test]
fn render_remote_revision() {
    let t = SourceTarget::Remote(
        "https://github.com/x/bevy".to_string(),
        GitRef::Revision("abc123".to_string()),
    );
    let lines = render_patch_block(&t, &Vec::new());
    assert_eq!(lines[2], "bevy = { git = \"https://github.com/x/bevy\", rev = \"abc123\" }");
}

#[test]
fn ref_selection_prefers_tag_then_branch_then_revision() {
    let g = select_git_ref(
        Some("t".to_string()),
        Some("b".to_string()),
        Some("r".to_string()),
    );
    assert!(matches!(g, GitRef::Tag(ref s) if s == "t"));
    let g = select_git_ref(None, Some("b".to_string()), Some("r".to_string()));
    assert!(matches!(g, GitRef::Branch(ref s) if s == "b"));
    let g = select_git_ref(None, None, Some("r".to_string()));
    assert!(matches!(g, GitRef::Revision(ref s) if s == "r"));
}

#[test]
fn ref_selection_defaults_to_branch_main() {
    let g = select_git_ref(None, None, None);
    assert!(matches!(g, GitRef::Branch(ref s) if s == "main"));
    assert_eq!(g.name(), "main");
}

#[test]
fn ref_name_is_the_selected_name() {
    assert_eq!(GitRef::Tag("v1".to_string()).name(), "v1");
    assert_eq!(GitRef::Revision("abc".to_string()).name(), "abc");
}

#[test]
fn join_lines_inserts_single_newlines() {
    let lines = vec!["a".to_string(), "b".to_string(), "c".to_string()];
    assert_eq!(join_lines(&lines), "a\nb\nc");
}

#[test]
fn join_lines_of_nothing_is_empty() {
    let lines: Vec<String> = Vec::new();
    assert_eq!(join_lines(&lines), "");
}

#[test]
fn join_lines_single() {
    let lines = vec!["only".to_string()];
    assert_eq!(join_lines(&lines), "only");
}

//! Generation of dependency-override ("patch") blocks for a package manifest.
//!
//! The library canonicalizes a loosely-formatted repository reference into a
//! fully-qualified HTTPS URL, builds the remote directory-listing query for a
//! given ref, turns directory listings (local or remote) into a sorted list of
//! crate names, and renders the patch block that points every crate at one
//! common source.

mod discover;
mod normalize;
mod render;
mod strutil;

pub use discover::crates_from_github_response;
pub use discover::crates_from_local_listing;
pub use discover::dir_names;
pub use discover::discover_error_text;
pub use discover::has_unreadable_dir_name;
pub use discover::local_dir_names;
pub use discover::DiscoverError;
pub use discover::GithubContent;
pub use discover::GithubError;
pub use discover::LocalEntry;
pub use discover::ResponseBody;

pub use normalize::api_url;
pub use normalize::api_url_spec;
pub use normalize::canonical_repo;
pub use normalize::lemma_canonical_fixed;
pub use normalize::lemma_normalize_idempotent;
pub use normalize::lemma_normalized_canonical;
pub use normalize::lemma_owner_only_appends_repo;
pub use normalize::normalized_repo;
pub use normalize::step_host;
pub use normalize::step_owner;
pub use normalize::step_scheme_add;
pub use normalize::step_scheme_fix;
pub use normalize::user_friendly_repo;

pub use render::crate_line_spec;
pub use render::join_lines;
pub use render::joined_lines_spec;
pub use render::ref_name_spec;
pub use render::render_patch_block;
pub use render::select_git_ref;
pub use render::specifier_spec;
pub use render::umbrella_line_spec;
pub use render::GitRef;
pub use render::SourceTarget;

pub use strutil::contains_seq;
pub use strutil::is_match_at;
pub use strutil::lex_le;
pub use strutil::replace_all;
pub use strutil::sorted_lex;

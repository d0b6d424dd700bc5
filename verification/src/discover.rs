//! Discovery of the sub-package names, from a remote directory-listing
//! response or from a local directory listing, with the typed errors the
//! pipeline surfaces.

use vstd::prelude::*;
use vstd::string::*;

use crate::strutil::sort_strings;
use crate::strutil::sorted_lex;

verus! {

/// One record of the remote directory listing: an entry's name and kind.
pub struct GithubContent {
    pub name: String,
    pub content_type: String,
}

/// The error record the remote host returns on a failed request.
pub struct GithubError {
    pub message: String,
    pub status: String,
}

impl GithubError {
    /// The host-reported failure, formatted as `<status>: <message>`.
    pub fn render(&self) -> (r: String)
        ensures
            r@ == self.status@ + ": "@ + self.message@,
    {
        let s = self.status.clone();
        s.concat(": ").concat(self.message.as_str())
    }
}

/// A discovery failure: the local listing could not be read, the response
/// could not be parsed, or the remote host reported an error.
#[derive(Debug)]
pub enum DiscoverError {
    IoError(String),
    TransportError(String),
    RemoteApiError(String),
}

/// The text a discovery error carries.
pub open spec fn discover_error_text(e: DiscoverError) -> Seq<char> {
    match e {
        DiscoverError::IoError(m) => m@,
        DiscoverError::TransportError(m) => m@,
        DiscoverError::RemoteApiError(m) => m@,
    }
}

impl DiscoverError {
    /// The human-readable text of this error.
    pub fn message(&self) -> (r: String)
        ensures
            r@ == discover_error_text(*self),
    {
        match self {
            DiscoverError::IoError(m) => m.clone(),
            DiscoverError::TransportError(m) => m.clone(),
            DiscoverError::RemoteApiError(m) => m.clone(),
        }
    }
}

/// What the response body parsed as: a directory listing, the host's error
/// record, or neither.
pub enum ResponseBody {
    Listing(Vec<GithubContent>),
    Failure(GithubError),
    Unparsed,
}

/// The names of the listing entries whose kind is `dir`, in listing order.
pub open spec fn dir_names(entries: Seq<GithubContent>) -> Seq<String>
    decreases entries.len(),
{
    if entries.len() == 0 {
        Seq::empty()
    } else if entries.first().content_type@ == "dir"@ {
        seq![entries.first().name] + dir_names(entries.drop_first())
    } else {
        dir_names(entries.drop_first())
    }
}

/// Extracts the names of the `dir` entries, in listing order.
fn collect_dir_names(entries: Vec<GithubContent>) -> (r: Vec<String>)
    ensures
        r@ == dir_names(entries@),
{
    let ghost orig = entries@;
    let dirs: String = "dir".to_owned();
    let mut rest = entries;
    let mut names: Vec<String> = Vec::new();
    while rest.len() > 0
        invariant
            dirs@ == "dir"@,
            dir_names(orig) == names@ + dir_names(rest@),
        decreases rest@.len(),
    {
        let ghost old_rest = rest@;
        let ghost old_names = names@;
        let e = rest.remove(0);
        proof {
            assert(rest@ =~= old_rest.drop_first());
        }
        if e.content_type == dirs {
            names.push(e.name);
            proof {
                assert(dir_names(old_rest) =~= seq![old_rest.first().name] + dir_names(rest@));
                assert(names@ =~= old_names + seq![old_rest.first().name]);
                assert(names@ + dir_names(rest@) =~= dir_names(orig));
            }
        } else {
            proof {
                assert(dir_names(old_rest) =~= dir_names(rest@));
            }
        }
    }
    proof {
        assert(dir_names(rest@) =~= Seq::<String>::empty());
        assert(names@ =~= dir_names(orig));
    }
    names
}

/// The error built when a response body does not parse as expected.
fn transport_error() -> (e: DiscoverError)
    ensures
        e matches DiscoverError::TransportError(m) && m@ == "Failed to parse GitHub response"@,
{
    DiscoverError::TransportError("Failed to parse GitHub response".to_owned())
}

/// Turns a remote response into the discovered crate names.
///
/// On status 200 with a parsed listing, the names of the `dir` entries are
/// returned in ascending lexical order; on any other status with a parsed
/// error record, the host's error is surfaced as `<status>: <message>`; a
/// body that parsed as neither is a transport error.
pub fn crates_from_github_response(status: u16, body: ResponseBody) -> (r: Result<
    Vec<String>,
    DiscoverError,
>)
    ensures
        status == 200 ==> (match body {
            ResponseBody::Listing(entries) => r matches Ok(names) && sorted_lex(names@)
                && names@.to_multiset() == dir_names(entries@).to_multiset(),
            _ => r matches Err(e) && e matches DiscoverError::TransportError(m) && m@
                == "Failed to parse GitHub response"@,
        }),
        status != 200 ==> (match body {
            ResponseBody::Failure(err) => r matches Err(e) && e
                matches DiscoverError::RemoteApiError(m) && m@ == err.status@ + ": "@
                + err.message@,
            _ => r matches Err(e) && e matches DiscoverError::TransportError(m) && m@
                == "Failed to parse GitHub response"@,
        }),
{
    match body {
        ResponseBody::Listing(entries) => {
            if status == 200 {
                let names = collect_dir_names(entries);
                Ok(sort_strings(names))
            } else {
                Err(transport_error())
            }
        },
        ResponseBody::Failure(err) => {
            if status == 200 {
                Err(transport_error())
            } else {
                Err(DiscoverError::RemoteApiError(err.render()))
            }
        },
        ResponseBody::Unparsed => Err(transport_error()),
    }
}

/// One entry of the local directory listing: its name, if it is
/// representable as text, and whether it is a directory.
pub struct LocalEntry {
    pub name: Option<String>,
    pub is_dir: bool,
}

/// Entry `i` is a directory whose name is not representable as text.
pub open spec fn unreadable_dir_name(entries: Seq<LocalEntry>, i: int) -> bool {
    0 <= i < entries.len() && entries[i].is_dir && entries[i].name is None
}

/// Some directory of the listing has a name not representable as text.
pub open spec fn has_unreadable_dir_name(entries: Seq<LocalEntry>) -> bool {
    exists|i: int| unreadable_dir_name(entries, i)
}

/// The names of the directory entries, in listing order.
pub open spec fn local_dir_names(entries: Seq<LocalEntry>) -> Seq<String>
    decreases entries.len(),
{
    if entries.len() == 0 {
        Seq::empty()
    } else {
        let e = entries.first();
        let rest = local_dir_names(entries.drop_first());
        match e.name {
            Some(n) => if e.is_dir {
                seq![n] + rest
            } else {
                rest
            },
            None => rest,
        }
    }
}

/// Turns a local directory listing into the discovered crate names.
///
/// Non-directory entries are ignored; a directory whose name is not
/// representable as text is an I/O error. Directory iteration order is not
/// deterministic, so the names are sorted for stable output.
pub fn crates_from_local_listing(entries: Vec<LocalEntry>) -> (r: Result<
    Vec<String>,
    DiscoverError,
>)
    ensures
        has_unreadable_dir_name(entries@) ==> (r matches Err(e) && e
            matches DiscoverError::IoError(m) && m@ == "couldn't convert os string"@),
        !has_unreadable_dir_name(entries@) ==> (r matches Ok(names) && sorted_lex(names@)
            && names@.to_multiset() == local_dir_names(entries@).to_multiset()),
{
    let ghost orig = entries@;
    let mut rest = entries;
    let mut names: Vec<String> = Vec::new();
    while rest.len() > 0
        invariant
            orig == entries@,
            local_dir_names(orig) == names@ + local_dir_names(rest@),
            has_unreadable_dir_name(orig) == has_unreadable_dir_name(rest@),
        decreases rest@.len(),
    {
        let ghost old_rest = rest@;
        let ghost old_names = names@;
        let e = rest.remove(0);
        proof {
            assert(rest@ =~= old_rest.drop_first());
        }
        if e.is_dir {
            match e.name {
                Some(n) => {
                    names.push(n);
                    proof {
                        assert(names@ =~= old_names + seq![old_rest.first().name.unwrap()]);
                        assert(names@ + local_dir_names(rest@) =~= local_dir_names(orig));
                    }
                },
                None => {
                    proof {
                        assert(unreadable_dir_name(old_rest, 0));
                        assert(has_unreadable_dir_name(old_rest));
                        assert(has_unreadable_dir_name(orig));
                    }
                    return Err(DiscoverError::IoError("couldn't convert os string".to_owned()));
                },
            }
        } else {
            proof {
                assert(local_dir_names(old_rest) =~= local_dir_names(rest@));
            }
        }
        proof {
            assert(has_unreadable_dir_name(old_rest) == has_unreadable_dir_name(rest@)) by {
                if has_unreadable_dir_name(rest@) {
                    let j = choose|j: int| unreadable_dir_name(rest@, j);
                    assert(unreadable_dir_name(old_rest, j + 1));
                }
                if has_unreadable_dir_name(old_rest) {
                    let i = choose|i: int| unreadable_dir_name(old_rest, i);
                    assert(i != 0);
                    assert(unreadable_dir_name(rest@, i - 1));
                }
            }
        }
    }
    proof {
        assert(local_dir_names(rest@) =~= Seq::<String>::empty());
        assert(names@ =~= local_dir_names(orig));
    }
    Ok(sort_strings(names))
}

} // verus!

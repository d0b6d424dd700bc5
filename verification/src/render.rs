//! The source target (local checkout or remote repository reference) and the
//! rendering of the patch block.

use vstd::prelude::*;
use vstd::string::*;

verus! {

/// A repository ref: exactly one of a tag, a branch, or a revision.
pub enum GitRef {
    Tag(String),
    Branch(String),
    Revision(String),
}

/// The name a ref selects, whatever its kind.
pub open spec fn ref_name_spec(g: GitRef) -> Seq<char> {
    match g {
        GitRef::Tag(s) => s@,
        GitRef::Branch(s) => s@,
        GitRef::Revision(s) => s@,
    }
}

/// The ref specifier as it appears in a manifest line.
pub open spec fn specifier_spec(g: GitRef) -> Seq<char> {
    match g {
        GitRef::Tag(s) => "tag = \""@ + s@ + "\""@,
        GitRef::Branch(s) => "branch = \""@ + s@ + "\""@,
        GitRef::Revision(s) => "rev = \""@ + s@ + "\""@,
    }
}

impl GitRef {
    /// The name this ref selects.
    pub fn name(&self) -> (r: String)
        ensures
            r@ == ref_name_spec(*self),
    {
        match self {
            GitRef::Tag(s) => s.clone(),
            GitRef::Branch(s) => s.clone(),
            GitRef::Revision(s) => s.clone(),
        }
    }

    /// The ref specifier of a manifest line: `tag = "…"`, `branch = "…"`, or
    /// `rev = "…"`.
    pub fn specifier(&self) -> (r: String)
        ensures
            r@ == specifier_spec(*self),
    {
        match self {
            GitRef::Tag(s) => "tag = \"".to_owned().concat(s.as_str()).concat("\""),
            GitRef::Branch(s) => "branch = \"".to_owned().concat(s.as_str()).concat("\""),
            GitRef::Revision(s) => "rev = \"".to_owned().concat(s.as_str()).concat("\""),
        }
    }
}

/// Chooses the active ref. When several are supplied the highest-precedence
/// one wins (tag over branch over revision) and the others are ignored; when
/// none is supplied the default is branch `main`.
pub fn select_git_ref(tag: Option<String>, branch: Option<String>, rev: Option<String>) -> (g:
    GitRef)
    ensures
        match (tag, branch, rev) {
            (Some(t), _, _) => g == GitRef::Tag(t),
            (None, Some(b), _) => g == GitRef::Branch(b),
            (None, None, Some(r)) => g == GitRef::Revision(r),
            (None, None, None) => g matches GitRef::Branch(m) && m@ == "main"@,
        },
{
    match tag {
        Some(t) => GitRef::Tag(t),
        None => match branch {
            Some(b) => GitRef::Branch(b),
            None => match rev {
                Some(r) => GitRef::Revision(r),
                None => GitRef::Branch("main".to_owned()),
            },
        },
    }
}

/// Where the patched crates are taken from: a local checkout, or a remote
/// repository at a ref.
pub enum SourceTarget {
    Local(String),
    Remote(String, GitRef),
}

/// The manifest line binding the umbrella package to the source target.
pub open spec fn umbrella_line_spec(t: SourceTarget) -> Seq<char> {
    match t {
        SourceTarget::Local(p) => "bevy = { path = \""@ + p@ + "\" }"@,
        SourceTarget::Remote(repo, g) => "bevy = { git = \""@ + repo@ + "\", "@ + specifier_spec(g)
            + " }"@,
    }
}

/// The manifest line binding one discovered crate to the source target; the
/// local variant points into the crate's own subdirectory.
pub open spec fn crate_line_spec(t: SourceTarget, name: Seq<char>) -> Seq<char> {
    match t {
        SourceTarget::Local(p) => name + " = { path = \""@ + p@ + "/crates/"@ + name + "\" }"@,
        SourceTarget::Remote(repo, g) => name + " = { git = \""@ + repo@ + "\", "@
            + specifier_spec(g) + " }"@,
    }
}

/// Builds the umbrella package's line.
fn umbrella_line(target: &SourceTarget) -> (r: String)
    ensures
        r@ == umbrella_line_spec(*target),
{
    match target {
        SourceTarget::Local(p) => "bevy = { path = \"".to_owned().concat(p.as_str()).concat(
            "\" }",
        ),
        SourceTarget::Remote(repo, g) => {
            let spec_part = g.specifier();
            "bevy = { git = \"".to_owned().concat(repo.as_str()).concat("\", ").concat(
                spec_part.as_str(),
            ).concat(" }")
        },
    }
}

/// Builds one discovered crate's line.
fn crate_line(target: &SourceTarget, name: &String) -> (r: String)
    ensures
        r@ == crate_line_spec(*target, name@),
{
    match target {
        SourceTarget::Local(p) => name.clone().concat(" = { path = \"").concat(p.as_str()).concat(
            "/crates/",
        ).concat(name.as_str()).concat("\" }"),
        SourceTarget::Remote(repo, g) => {
            let spec_part = g.specifier();
            name.clone().concat(" = { git = \"").concat(repo.as_str()).concat("\", ").concat(
                spec_part.as_str(),
            ).concat(" }")
        },
    }
}

/// Renders the patch block: the section header, a comment, the umbrella
/// package's line, and one line per discovered crate, every line referencing
/// the same source target with the same ref specifier.
pub fn render_patch_block(target: &SourceTarget, crates: &Vec<String>) -> (r: Vec<String>)
    ensures
        r@.len() == 3 + crates@.len(),
        r@[0]@ == "[patch.crates-io]"@,
        r@[1]@ == "# Bevy Patch"@,
        r@[2]@ == umbrella_line_spec(*target),
        forall|i: int|
            0 <= i < crates@.len() ==> #[trigger] r@[3 + i]@ == crate_line_spec(
                *target,
                crates@[i]@,
            ),
{
    let mut lines: Vec<String> = Vec::new();
    lines.push("[patch.crates-io]".to_owned());
    lines.push("# Bevy Patch".to_owned());
    lines.push(umbrella_line(target));
    let mut i: usize = 0;
    while i < crates.len()
        invariant
            i <= crates@.len(),
            lines@.len() == 3 + i,
            lines@[0]@ == "[patch.crates-io]"@,
            lines@[1]@ == "# Bevy Patch"@,
            lines@[2]@ == umbrella_line_spec(*target),
            forall|k: int|
                0 <= k < i ==> #[trigger] lines@[3 + k]@ == crate_line_spec(
                    *target,
                    crates@[k]@,
                ),
        decreases crates@.len() - i,
    {
        let line = crate_line(target, &crates[i]);
        lines.push(line);
        i = i + 1;
    }
    lines
}

/// The lines joined by single newlines, with no trailing newline.
pub open spec fn joined_lines_spec(lines: Seq<String>) -> Seq<char>
    decreases lines.len(),
{
    if lines.len() == 0 {
        Seq::empty()
    } else if lines.len() == 1 {
        lines.first()@
    } else {
        lines.first()@ + "\n"@ + joined_lines_spec(lines.drop_first())
    }
}

/// Appending a line appends a newline and the line, except to an empty block.
proof fn lemma_joined_lines_push(s: Seq<String>, x: String)
    ensures
        joined_lines_spec(s.push(x)) == if s.len() == 0 {
            x@
        } else {
            joined_lines_spec(s) + "\n"@ + x@
        },
    decreases s.len(),
{
    if s.len() == 0 {
        assert(s.push(x).first() == x);
    } else {
        lemma_joined_lines_push(s.drop_first(), x);
        assert(s.push(x).drop_first() =~= s.drop_first().push(x));
        assert(s.push(x).first() == s.first());
        if s.len() == 1 {
            assert(joined_lines_spec(s.push(x)) =~= joined_lines_spec(s) + "\n"@ + x@);
        } else {
            assert(s.first()@ + "\n"@ + (joined_lines_spec(s.drop_first()) + "\n"@ + x@) =~= (
            s.first()@ + "\n"@ + joined_lines_spec(s.drop_first())) + "\n"@ + x@);
        }
    }
}

/// Joins the block's lines into the text written out.
pub fn join_lines(lines: &Vec<String>) -> (r: String)
    ensures
        r@ == joined_lines_spec(lines@),
{
    let mut out = String::new();
    let mut i: usize = 0;
    while i < lines.len()
        invariant
            i <= lines@.len(),
            out@ == joined_lines_spec(lines@.take(i as int)),
        decreases lines@.len() - i,
    {
        if i > 0 {
            out.append("\n");
        }
        out.append(lines[i].as_str());
        proof {
            assert(lines@.take(i + 1) =~= lines@.take(i as int).push(lines@[i as int]));
            lemma_joined_lines_push(lines@.take(i as int), lines@[i as int]);
            assert(lines@.take(i as int).len() == i);
        }
        i = i + 1;
    }
    proof {
        assert(lines@.take(lines@.len() as int) =~= lines@);
    }
    out
}

} // verus!

//! Canonicalization of loosely-formatted repository references and
//! construction of the remote directory-listing query URL.

use vstd::prelude::*;
use vstd::string::*;

use crate::strutil::contains_seq;
use crate::strutil::contains_str;
use crate::strutil::ends_with_str;
use crate::strutil::is_match_at;
use crate::strutil::lemma_least_match;
use crate::strutil::lemma_replace_all_absent;
use crate::strutil::lemma_replace_all_prefix;
use crate::strutil::lemma_replace_all_split;
use crate::strutil::replace_all;
use crate::strutil::replace_all_str;

verus! {

/// A reference without any `/` names only an owner; the umbrella repository's
/// own name is assumed as the repository.
pub open spec fn step_owner(s: Seq<char>) -> Seq<char> {
    if !contains_seq(s, "/"@) {
        s + "/bevy"@
    } else {
        s
    }
}

/// A reference that does not mention the host gets the host prepended.
pub open spec fn step_host(s: Seq<char>) -> Seq<char> {
    if !contains_seq(s, "github.com/"@) {
        "github.com/"@ + s
    } else {
        s
    }
}

/// Every occurrence of `http://` is corrected to `https://`.
pub open spec fn step_scheme_fix(s: Seq<char>) -> Seq<char> {
    replace_all(s, "http://"@, "https://"@)
}

/// A reference still without a scheme gets `https://` prepended.
pub open spec fn step_scheme_add(s: Seq<char>) -> Seq<char> {
    if !contains_seq(s, "https://"@) {
        "https://"@ + s
    } else {
        s
    }
}

/// The canonical HTTPS URL of a user-supplied repository reference: the four
/// normalization rules applied in order.
pub open spec fn normalized_repo(s: Seq<char>) -> Seq<char> {
    step_scheme_add(step_scheme_fix(step_host(step_owner(s))))
}

/// Canonicalizes a shorthand repository reference into a full HTTPS URL.
pub fn user_friendly_repo(repo: &str) -> (r: String)
    ensures
        r@ == normalized_repo(repo@),
{
    let mut cur: String = repo.to_owned();
    if !contains_str(cur.as_str(), "/") {
        cur = cur.concat("/bevy");
    }
    assert(cur@ == step_owner(repo@));
    if !contains_str(cur.as_str(), "github.com/") {
        let pre = "github.com/".to_owned();
        cur = pre.concat(cur.as_str());
    }
    assert(cur@ == step_host(step_owner(repo@)));
    proof {
        reveal_strlit("http://");
    }
    let fixed = replace_all_str(cur.as_str(), "http://", "https://");
    cur = fixed;
    assert(cur@ == step_scheme_fix(step_host(step_owner(repo@))));
    if !contains_str(cur.as_str(), "https://") {
        let pre = "https://".to_owned();
        cur = pre.concat(cur.as_str());
    }
    assert(cur@ == normalized_repo(repo@));
    cur
}

/// An occurrence inside the right part of a concatenation is an occurrence in
/// the whole.
proof fn lemma_contains_concat_right(a: Seq<char>, b: Seq<char>, p: Seq<char>)
    requires
        contains_seq(b, p),
    ensures
        contains_seq(a + b, p),
{
    let i = choose|i: int| is_match_at(b, p, i);
    assert((a + b).subrange(a.len() + i, a.len() + i + p.len() as int) =~= b.subrange(
        i,
        i + p.len() as int,
    ));
    assert(is_match_at(a + b, p, a.len() + i));
}

/// A concatenation begins with its left part.
proof fn lemma_prefix_match(a: Seq<char>, b: Seq<char>)
    ensures
        is_match_at(a + b, a, 0),
{
    assert((a + b).subrange(0, a.len() as int) =~= a);
}

/// A canonical reference: it names a path, the host, and the HTTPS scheme,
/// and contains the plain-HTTP scheme nowhere.
pub open spec fn canonical_repo(s: Seq<char>) -> bool {
    contains_seq(s, "/"@) && contains_seq(s, "github.com/"@) && contains_seq(s, "https://"@)
        && !contains_seq(s, "http://"@)
}

/// A reference without any `/` has the umbrella repository's name appended
/// before the host and scheme rules apply.
pub proof fn lemma_owner_only_appends_repo(s: Seq<char>)
    requires
        !contains_seq(s, "/"@),
    ensures
        normalized_repo(s) == step_scheme_add(step_scheme_fix(step_host(s + "/bevy"@))),
{
}

/// Normalization leaves a canonical reference unchanged.
pub proof fn lemma_canonical_fixed(s: Seq<char>)
    requires
        canonical_repo(s),
    ensures
        normalized_repo(s) == s,
{
    lemma_replace_all_absent(s, "http://"@, "https://"@);
}

/// No occurrence of `http://` starts inside an occurrence of `github.com/`:
/// the two texts share no viable offset.
proof fn lemma_no_scheme_inside_host(s: Seq<char>, i: int, q: int)
    requires
        is_match_at(s, "github.com/"@, i),
        i <= q < i + "github.com/"@.len(),
    ensures
        !is_match_at(s, "http://"@, q),
{
    let g = "github.com/"@;
    let u = "http://"@;
    reveal_strlit("github.com/");
    reveal_strlit("http://");
    if is_match_at(s, u, q) {
        let d = q - i;
        assert(s[q] == u[0]) by {
            assert(s.subrange(q, q + u.len() as int)[0] == s[q]);
        }
        if d == 3 {
            assert(s[q + 1] == u[1]) by {
                assert(s.subrange(q, q + u.len() as int)[1] == s[q + 1]);
            }
            assert(s[i + 4] == g[4]) by {
                assert(s.subrange(i, i + g.len() as int)[4] == s[i + 4]);
            }
        } else {
            assert(s[i + d] == g[d]) by {
                assert(s.subrange(i, i + g.len() as int)[d] == s[i + d]);
            }
            assert(d == 0 || d == 1 || d == 2 || d == 4 || d == 5 || d == 6 || d == 7 || d == 8
                || d == 9 || d == 10);
        }
    }
}

/// The scheme correction keeps every occurrence of the host.
proof fn lemma_scheme_fix_keeps_host(s: Seq<char>, i: int)
    requires
        is_match_at(s, "github.com/"@, i),
    ensures
        contains_seq(step_scheme_fix(s), "github.com/"@),
    decreases s.len(),
{
    let g = "github.com/"@;
    let u = "http://"@;
    let h = "https://"@;
    reveal_strlit("github.com/");
    reveal_strlit("http://");
    reveal_strlit("https://");
    let r = replace_all(s, u, h);
    if s.subrange(0, u.len() as int) == u {
        assert(is_match_at(s, u, 0));
        assert(i >= u.len()) by {
            if i < u.len() {
                if i <= 0 {
                    lemma_no_scheme_inside_host(s, i, 0);
                } else {
                    assert(s[i] == u[i]) by {
                        assert(s.subrange(0, u.len() as int)[i] == s[i]);
                    }
                    assert(s[i] == g[0]) by {
                        assert(s.subrange(i, i + g.len() as int)[0] == s[i]);
                    }
                    assert(i == 1 || i == 2 || i == 3 || i == 4 || i == 5 || i == 6);
                }
            }
        }
        assert(is_match_at(s.skip(u.len() as int), g, i - u.len())) by {
            assert(s.skip(u.len() as int).subrange(i - u.len(), i - u.len() + g.len() as int) =~= s
                .subrange(i, i + g.len() as int));
        }
        lemma_scheme_fix_keeps_host(s.skip(u.len() as int), i - u.len());
        lemma_contains_concat_right(h, replace_all(s.skip(u.len() as int), u, h), g);
    } else if i == 0 {
        assert(forall|q: int| 0 <= q < g.len() ==> !is_match_at(s, u, q)) by {
            assert forall|q: int| 0 <= q < g.len() implies !is_match_at(s, u, q) by {
                lemma_no_scheme_inside_host(s, 0, q);
            }
        }
        lemma_replace_all_prefix(s, u, h, g.len() as int);
        assert(r.subrange(0, g.len() as int) == s.subrange(0, g.len() as int));
        assert(is_match_at(r, g, 0));
    } else {
        assert(is_match_at(s.skip(1), g, i - 1)) by {
            assert(s.skip(1).subrange(i - 1, i - 1 + g.len() as int) =~= s.subrange(
                i,
                i + g.len() as int,
            ));
        }
        lemma_scheme_fix_keeps_host(s.skip(1), i - 1);
        lemma_contains_concat_right(seq![s[0]], replace_all(s.skip(1), u, h), g);
    }
}

/// Prepending `https://` to a sequence free of `http://` leaves it free:
/// no occurrence fits inside the prefix or across the seam.
proof fn lemma_https_prefix_no_scheme(t: Seq<char>)
    requires
        !contains_seq(t, "http://"@),
    ensures
        !contains_seq("https://"@ + t, "http://"@),
{
    let u = "http://"@;
    let h = "https://"@;
    reveal_strlit("http://");
    reveal_strlit("https://");
    let y = h + t;
    assert forall|q: int| !is_match_at(y, u, q) by {
        if is_match_at(y, u, q) {
            if q >= h.len() {
                assert(t.subrange(q - h.len(), q - h.len() + u.len() as int) =~= y.subrange(
                    q,
                    q + u.len() as int,
                ));
                assert(is_match_at(t, u, q - h.len()));
            } else if q == 0 {
                assert(y[4] == u[4]) by {
                    assert(y.subrange(0, u.len() as int)[4] == y[4]);
                }
                assert(y[4] == h[4]);
            } else {
                assert(y[q] == u[0]) by {
                    assert(y.subrange(q, q + u.len() as int)[0] == y[q]);
                }
                assert(y[q] == h[q]);
                assert(q == 1 || q == 2 || q == 3 || q == 4 || q == 5 || q == 6 || q == 7);
            }
        }
    }
}

/// The scheme correction leaves no occurrence of `http://` behind: each one
/// is replaced, and no new one can form around a substitution.
proof fn lemma_scheme_fix_removes_scheme(s: Seq<char>)
    ensures
        !contains_seq(step_scheme_fix(s), "http://"@),
    decreases s.len(),
{
    let u = "http://"@;
    let h = "https://"@;
    reveal_strlit("http://");
    reveal_strlit("https://");
    let r = replace_all(s, u, h);
    if s.len() < u.len() {
        assert(forall|q: int| !is_match_at(s, u, q));
    } else if s.subrange(0, u.len() as int) == u {
        lemma_scheme_fix_removes_scheme(s.skip(u.len() as int));
        lemma_https_prefix_no_scheme(replace_all(s.skip(u.len() as int), u, h));
    } else {
        let rr = replace_all(s.skip(1), u, h);
        lemma_scheme_fix_removes_scheme(s.skip(1));
        assert(!contains_seq(r, u)) by {
            if contains_seq(r, u) {
                let q = choose|q: int| is_match_at(r, u, q);
                if q >= 1 {
                    assert(rr.subrange(q - 1, q - 1 + u.len() as int) =~= r.subrange(
                        q,
                        q + u.len() as int,
                    ));
                    assert(is_match_at(rr, u, q - 1));
                } else {
                    lemma_front_match_reflects(s);
                }
            }
        }
    }
}

/// In the character-copy step of the scheme correction, an occurrence of
/// `http://` at the front of the result reflects one at the front of the
/// reference: the following characters are either copied unchanged, or begin
/// a substituted `https://`, into which `http://` does not fit.
proof fn lemma_front_match_reflects(s: Seq<char>)
    requires
        s.len() >= "http://"@.len(),
        is_match_at(
            seq![s[0]] + replace_all(s.skip(1), "http://"@, "https://"@),
            "http://"@,
            0,
        ),
    ensures
        s.subrange(0, "http://"@.len() as int) == "http://"@,
{
    let u = "http://"@;
    let h = "https://"@;
    reveal_strlit("http://");
    reveal_strlit("https://");
    let rr = replace_all(s.skip(1), u, h);
    let r = seq![s[0]] + rr;
    assert(r.subrange(0, u.len() as int) == u);
    assert(forall|j: int| 0 <= j < u.len() ==> r[j] == u[j]) by {
        assert forall|j: int| 0 <= j < u.len() implies r[j] == u[j] by {
            assert(r.subrange(0, u.len() as int)[j] == r[j]);
        }
    }
    if !contains_seq(s.skip(1), u) {
        lemma_replace_all_absent(s.skip(1), u, h);
        assert(r =~= s);
        assert(is_match_at(s, u, 0));
        assert(s.subrange(0, u.len() as int) == u);
    } else {
        let w = choose|w: int| is_match_at(s.skip(1), u, w);
        lemma_least_match(s.skip(1), u, w);
        let t = choose|t: int|
            is_match_at(s.skip(1), u, t) && (forall|k: int|
                0 <= k < t ==> !is_match_at(s.skip(1), u, k));
        if t >= u.len() - 1 {
            lemma_replace_all_prefix(s.skip(1), u, h, u.len() - 1);
            assert(s.subrange(0, u.len() as int) =~= u) by {
                assert forall|j: int| 0 <= j < u.len() implies s.subrange(0, u.len() as int)[j]
                    == u[j] by {
                    if j > 0 {
                        assert(rr.subrange(0, u.len() - 1)[j - 1] == s.skip(1).subrange(
                            0,
                            u.len() - 1,
                        )[j - 1]);
                        assert(r[j] == rr[j - 1]);
                    }
                }
            }
        } else {
            lemma_replace_all_split(s.skip(1), u, h, t);
            assert(rr == s.skip(1).subrange(0, t) + h + replace_all(
                s.skip(1).skip(t + u.len() as int),
                u,
                h,
            ));
            assert(rr[t] == h[0]);
            assert(r[t + 1] == rr[t]);
            assert(r[t + 1] == u[t + 1]);
            assert(t == 0 || t == 1 || t == 2 || t == 3 || t == 4 || t == 5);
            assert(u[t + 1] != 'h');
        }
    }
}

/// The result of normalization is canonical.
pub proof fn lemma_normalized_canonical(s: Seq<char>)
    ensures
        canonical_repo(normalized_repo(s)),
{
    let g = "github.com/"@;
    let u = "http://"@;
    let h = "https://"@;
    reveal_strlit("github.com/");
    reveal_strlit("http://");
    reveal_strlit("https://");
    reveal_strlit("/");
    let s1 = step_owner(s);
    let s2 = step_host(s1);
    let s3 = step_scheme_fix(s2);
    let y = step_scheme_add(s3);
    // The host occurs after the host rule.
    assert(contains_seq(s2, g)) by {
        if !contains_seq(s1, g) {
            lemma_prefix_match(g, s1);
            assert(is_match_at(s2, g, 0));
        }
    }
    // The scheme correction keeps the host and removes every `http://`.
    assert(contains_seq(s3, g)) by {
        let i = choose|i: int| is_match_at(s2, g, i);
        lemma_scheme_fix_keeps_host(s2, i);
    }
    lemma_scheme_fix_removes_scheme(s2);
    // The scheme rule keeps both, and ensures the HTTPS scheme occurs.
    assert(contains_seq(y, g) && contains_seq(y, h) && !contains_seq(y, u)) by {
        if !contains_seq(s3, h) {
            lemma_contains_concat_right(h, s3, g);
            lemma_prefix_match(h, s3);
            assert(is_match_at(y, h, 0));
            lemma_https_prefix_no_scheme(s3);
        }
    }
    // An HTTPS scheme brings a path separator with it.
    assert(contains_seq(y, "/"@)) by {
        let i = choose|i: int| is_match_at(y, h, i);
        assert(y.subrange(i, i + h.len() as int)[7] == y[i + 7]);
        assert(y[i + 7] == h[7]);
        assert(y.subrange(i + 7, i + 8) =~= "/"@);
        assert(is_match_at(y, "/"@, i + 7));
    }
}

/// Normalization is idempotent: a second application changes nothing.
pub proof fn lemma_normalize_idempotent(s: Seq<char>)
    ensures
        normalized_repo(normalized_repo(s)) == normalized_repo(s),
{
    lemma_normalized_canonical(s);
    lemma_canonical_fixed(normalized_repo(s));
}

/// The query URL of the remote directory-listing endpoint for the `crates`
/// subdirectory of `repo` at ref `git_ref`: the canonical repository URL with
/// every occurrence of the host replaced by the API host, any `.git` suffix
/// stripped, and the endpoint path appended.
pub open spec fn api_url_spec(repo: Seq<char>, git_ref: Seq<char>) -> Seq<char> {
    let n = normalized_repo(repo);
    let a = replace_all(n, "github.com/"@, "api.github.com/repos/"@);
    let b = if ".git"@.len() <= a.len() && is_match_at(a, ".git"@, a.len() - ".git"@.len()) {
        a.subrange(0, a.len() - ".git"@.len())
    } else {
        a
    };
    b + "/contents/crates?ref="@ + git_ref
}

/// Builds the remote directory-listing query URL for a repository reference
/// and a ref name.
pub fn api_url(repo: &str, git_ref: &str) -> (r: String)
    ensures
        r@ == api_url_spec(repo@, git_ref@),
{
    let repo_n = user_friendly_repo(repo);
    proof {
        reveal_strlit("github.com/");
    }
    let mut cur = replace_all_str(repo_n.as_str(), "github.com/", "api.github.com/repos/");
    if ends_with_str(cur.as_str(), ".git") {
        let n = cur.as_str().unicode_len();
        let glen = ".git".unicode_len();
        let head = cur.as_str().substring_char(0, n - glen);
        let stripped = head.to_owned();
        cur = stripped;
    }
    let out = cur.concat("/contents/crates?ref=").concat(git_ref);
    out
}

} // verus!

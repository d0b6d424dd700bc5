//! Character-sequence utilities: substring matching, lexicographic order,
//! and sorting of string vectors, all specified over `Seq<char>` views.

use vstd::prelude::*;

verus! {

/// The pattern `p` occurs in `s` starting at index `i`.
pub open spec fn is_match_at(s: Seq<char>, p: Seq<char>, i: int) -> bool {
    0 <= i && i + p.len() <= s.len() && s.subrange(i, i + p.len() as int) == p
}

/// The pattern `p` occurs somewhere in `s`.
pub open spec fn contains_seq(s: Seq<char>, p: Seq<char>) -> bool {
    exists|i: int| is_match_at(s, p, i)
}

/// Checks whether `p` occurs in `s` at index `i`.
pub fn match_at(s: &str, p: &str, i: usize) -> (r: bool)
    requires
        i + p@.len() <= s@.len(),
    ensures
        r == is_match_at(s@, p@, i as int),
{
    let slen = s.unicode_len();
    let plen = p.unicode_len();
    let mut j: usize = 0;
    while j < plen
        invariant
            j <= plen,
            slen == s@.len(),
            plen == p@.len(),
            i + plen <= s@.len(),
            forall|k: int| 0 <= k < j ==> s@[i + k] == p@[k],
        decreases plen - j,
    {
        if s.get_char(i + j) != p.get_char(j) {
            assert(s@.subrange(i as int, i + plen as int)[j as int] != p@[j as int]);
            return false;
        }
        j = j + 1;
    }
    assert(s@.subrange(i as int, i + plen as int) =~= p@);
    true
}

/// Checks whether `p` occurs anywhere in `s`.
pub fn contains_str(s: &str, p: &str) -> (r: bool)
    ensures
        r == contains_seq(s@, p@),
{
    let slen = s.unicode_len();
    let plen = p.unicode_len();
    if plen > slen {
        assert(forall|i: int| !is_match_at(s@, p@, i));
        return false;
    }
    if plen == 0 {
        assert(is_match_at(s@, p@, 0)) by {
            assert(s@.subrange(0, 0) =~= p@);
        }
        return true;
    }
    let bound = slen - plen;
    let mut i: usize = 0;
    while i <= bound
        invariant
            i <= bound + 1,
            bound == slen - plen,
            1 <= plen <= slen,
            slen == s@.len(),
            plen == p@.len(),
            forall|k: int| 0 <= k < i ==> !is_match_at(s@, p@, k),
        decreases bound + 1 - i,
    {
        if match_at(s, p, i) {
            return true;
        }
        i = i + 1;
    }
    assert(forall|k: int| !is_match_at(s@, p@, k));
    false
}

/// Every occurrence has a leftmost occurrence at or before it.
pub proof fn lemma_least_match(s: Seq<char>, p: Seq<char>, w: int)
    requires
        is_match_at(s, p, w),
    ensures
        exists|i: int|
            is_match_at(s, p, i) && (forall|k: int| 0 <= k < i ==> !is_match_at(s, p, k)),
    decreases w,
{
    if forall|k: int| 0 <= k < w ==> !is_match_at(s, p, k) {
        assert(is_match_at(s, p, w) && (forall|k: int| 0 <= k < w ==> !is_match_at(s, p, k)));
    } else {
        let k = choose|k: int| 0 <= k < w && is_match_at(s, p, k);
        lemma_least_match(s, p, k);
    }
}

/// `s` with every occurrence of `p`, leftmost first and without rescanning
/// what was substituted, replaced by `v`; `s` itself when `p` is empty.
pub open spec fn replace_all(s: Seq<char>, p: Seq<char>, v: Seq<char>) -> Seq<char>
    decreases s.len(),
{
    if p.len() == 0 {
        s
    } else if s.len() < p.len() {
        s
    } else if s.subrange(0, p.len() as int) == p {
        v + replace_all(s.skip(p.len() as int), p, v)
    } else {
        seq![s[0]] + replace_all(s.skip(1), p, v)
    }
}

/// Replacement leaves a sequence without any occurrence of the pattern
/// unchanged.
pub proof fn lemma_replace_all_absent(s: Seq<char>, p: Seq<char>, v: Seq<char>)
    requires
        !contains_seq(s, p),
    ensures
        replace_all(s, p, v) == s,
    decreases s.len(),
{
    assert(p.len() > 0) by {
        if p.len() == 0 {
            assert(s.subrange(0, 0) =~= p);
            assert(is_match_at(s, p, 0));
        }
    }
    if s.len() < p.len() {
    } else if s.subrange(0, p.len() as int) == p {
        assert(is_match_at(s, p, 0));
    } else {
        assert(!contains_seq(s.skip(1), p)) by {
            if contains_seq(s.skip(1), p) {
                let j = choose|j: int| is_match_at(s.skip(1), p, j);
                assert(s.subrange(j + 1, j + 1 + p.len() as int) =~= s.skip(1).subrange(
                    j,
                    j + p.len() as int,
                ));
                assert(is_match_at(s, p, j + 1));
            }
        }
        lemma_replace_all_absent(s.skip(1), p, v);
        assert(seq![s[0]] + s.skip(1) =~= s);
    }
}

/// As long as no occurrence of the pattern starts before index `m`, the
/// first `m` characters are copied unchanged.
pub proof fn lemma_replace_all_prefix(s: Seq<char>, p: Seq<char>, v: Seq<char>, m: int)
    requires
        p.len() > 0,
        0 <= m <= s.len(),
        forall|q: int| 0 <= q < m ==> !is_match_at(s, p, q),
    ensures
        replace_all(s, p, v).len() >= m,
        replace_all(s, p, v).subrange(0, m) == s.subrange(0, m),
    decreases m,
{
    let r = replace_all(s, p, v);
    if m == 0 {
        assert(r.subrange(0, 0) =~= s.subrange(0, 0));
    } else if s.len() < p.len() {
    } else {
        assert(!is_match_at(s, p, 0));
        assert(s.subrange(0, p.len() as int) != p);
        let rr = replace_all(s.skip(1), p, v);
        assert(forall|q: int| 0 <= q < m - 1 ==> !is_match_at(s.skip(1), p, q)) by {
            assert forall|q: int| 0 <= q < m - 1 implies !is_match_at(s.skip(1), p, q) by {
                if is_match_at(s.skip(1), p, q) {
                    assert(s.subrange(q + 1, q + 1 + p.len() as int) =~= s.skip(1).subrange(
                        q,
                        q + p.len() as int,
                    ));
                    assert(is_match_at(s, p, q + 1));
                }
            }
        }
        lemma_replace_all_prefix(s.skip(1), p, v, m - 1);
        assert(r.subrange(0, m) =~= s.subrange(0, m)) by {
            assert forall|k: int| 0 <= k < m implies r.subrange(0, m)[k] == s.subrange(0, m)[k] by {
                if k > 0 {
                    assert(rr.subrange(0, m - 1)[k - 1] == s.skip(1).subrange(0, m - 1)[k - 1]);
                }
            }
        }
    }
}

/// At the leftmost occurrence, replacement splits into the untouched head,
/// the substitute, and the replaced tail.
pub proof fn lemma_replace_all_split(s: Seq<char>, p: Seq<char>, v: Seq<char>, t: int)
    requires
        p.len() > 0,
        is_match_at(s, p, t),
        forall|q: int| 0 <= q < t ==> !is_match_at(s, p, q),
    ensures
        replace_all(s, p, v) == s.subrange(0, t) + v + replace_all(
            s.skip(t + p.len() as int),
            p,
            v,
        ),
    decreases t,
{
    if t == 0 {
        assert(s.subrange(0, p.len() as int) == p);
        assert(s.subrange(0, 0) + v + replace_all(s.skip(p.len() as int), p, v) =~= v
            + replace_all(s.skip(p.len() as int), p, v));
    } else {
        assert(!is_match_at(s, p, 0));
        assert(s.subrange(0, p.len() as int) != p);
        assert(is_match_at(s.skip(1), p, t - 1)) by {
            assert(s.skip(1).subrange(t - 1, t - 1 + p.len() as int) =~= s.subrange(
                t,
                t + p.len() as int,
            ));
        }
        assert(forall|q: int| 0 <= q < t - 1 ==> !is_match_at(s.skip(1), p, q)) by {
            assert forall|q: int| 0 <= q < t - 1 implies !is_match_at(s.skip(1), p, q) by {
                if is_match_at(s.skip(1), p, q) {
                    assert(s.subrange(q + 1, q + 1 + p.len() as int) =~= s.skip(1).subrange(
                        q,
                        q + p.len() as int,
                    ));
                    assert(is_match_at(s, p, q + 1));
                }
            }
        }
        lemma_replace_all_split(s.skip(1), p, v, t - 1);
        assert(s.skip(1).subrange(0, t - 1) =~= s.subrange(1, t));
        assert(s.skip(1).skip(t - 1 + p.len() as int) =~= s.skip(t + p.len() as int));
        assert(seq![s[0]] + (s.subrange(1, t) + v + replace_all(s.skip(t + p.len() as int), p, v))
            =~= s.subrange(0, t) + v + replace_all(s.skip(t + p.len() as int), p, v));
    }
}

/// Replaces every occurrence of `p` in `s` by `v`, leftmost first, without
/// rescanning what was substituted.
pub fn replace_all_str(s: &str, p: &str, v: &str) -> (r: String)
    requires
        p@.len() > 0,
    ensures
        r@ == replace_all(s@, p@, v@),
{
    let slen = s.unicode_len();
    let plen = p.unicode_len();
    let mut out = String::new();
    let mut i: usize = 0;
    proof {
        assert(s@.skip(0) =~= s@);
        assert(out@ + replace_all(s@, p@, v@) =~= replace_all(s@, p@, v@));
    }
    while i < slen
        invariant
            i <= slen,
            slen == s@.len(),
            plen == p@.len(),
            plen > 0,
            out@ + replace_all(s@.skip(i as int), p@, v@) == replace_all(s@, p@, v@),
        decreases slen - i,
    {
        let ghost old_out = out@;
        let ghost tail = s@.skip(i as int);
        if plen <= slen - i && match_at(s, p, i) {
            out.append(v);
            proof {
                assert(tail.subrange(0, plen as int) =~= s@.subrange(i as int, i + plen));
                assert(replace_all(tail, p@, v@) == v@ + replace_all(
                    tail.skip(plen as int),
                    p@,
                    v@,
                ));
                assert(tail.skip(plen as int) =~= s@.skip(i + plen));
                assert(old_out + (v@ + replace_all(s@.skip(i + plen), p@, v@)) =~= (old_out + v@)
                    + replace_all(s@.skip(i + plen), p@, v@));
            }
            i = i + plen;
        } else {
            let piece = s.substring_char(i, i + 1);
            out.append(piece);
            proof {
                assert(piece@ =~= seq![s@[i as int]]);
                if tail.len() < plen {
                    assert(replace_all(tail, p@, v@) == tail);
                    assert(s@.skip(i + 1).len() < plen);
                    assert(replace_all(s@.skip(i + 1), p@, v@) == s@.skip(i + 1));
                    assert(tail =~= seq![s@[i as int]] + s@.skip(i + 1));
                } else {
                    assert(!is_match_at(s@, p@, i as int));
                    assert(tail.subrange(0, plen as int) =~= s@.subrange(i as int, i + plen));
                    assert(tail.subrange(0, plen as int) != p@);
                    assert(tail[0] == s@[i as int]);
                    assert(tail.skip(1) =~= s@.skip(i + 1));
                    assert(replace_all(tail, p@, v@) == seq![s@[i as int]] + replace_all(
                        s@.skip(i + 1),
                        p@,
                        v@,
                    ));
                }
                assert(old_out + (seq![s@[i as int]] + replace_all(s@.skip(i + 1), p@, v@)) =~= (
                old_out + seq![s@[i as int]]) + replace_all(s@.skip(i + 1), p@, v@));
            }
            i = i + 1;
        }
    }
    proof {
        assert(s@.skip(slen as int) =~= Seq::<char>::empty());
        assert(replace_all(s@.skip(slen as int), p@, v@) == Seq::<char>::empty());
        assert(out@ + Seq::<char>::empty() =~= out@);
    }
    out
}

/// Lexicographic order on character sequences, by code point, shorter
/// prefixes first; agrees with the standard byte-wise order on UTF-8 strings.
pub open spec fn lex_le(a: Seq<char>, b: Seq<char>) -> bool
    decreases a.len(),
{
    if a.len() == 0 {
        true
    } else if b.len() == 0 {
        false
    } else if (a[0] as u32) < (b[0] as u32) {
        true
    } else if (a[0] as u32) > (b[0] as u32) {
        false
    } else {
        lex_le(a.subrange(1, a.len() as int), b.subrange(1, b.len() as int))
    }
}

/// `lex_le` relates every pair of sequences one way or the other.
pub proof fn lemma_lex_le_total(a: Seq<char>, b: Seq<char>)
    ensures
        lex_le(a, b) || lex_le(b, a),
    decreases a.len(),
{
    if a.len() == 0 || b.len() == 0 {
    } else if (a[0] as u32) == (b[0] as u32) {
        lemma_lex_le_total(a.subrange(1, a.len() as int), b.subrange(1, b.len() as int));
    }
}

/// `lex_le` is transitive.
pub proof fn lemma_lex_le_trans(a: Seq<char>, b: Seq<char>, c: Seq<char>)
    requires
        lex_le(a, b),
        lex_le(b, c),
    ensures
        lex_le(a, c),
    decreases a.len(),
{
    if a.len() == 0 || b.len() == 0 || c.len() == 0 {
    } else if (a[0] as u32) == (b[0] as u32) && (b[0] as u32) == (c[0] as u32) {
        lemma_lex_le_trans(
            a.subrange(1, a.len() as int),
            b.subrange(1, b.len() as int),
            c.subrange(1, c.len() as int),
        );
    }
}

/// Compares two strings in the order of `lex_le`.
pub fn str_lex_le(a: &str, b: &str) -> (r: bool)
    ensures
        r == lex_le(a@, b@),
    decreases a@.len(),
{
    let alen = a.unicode_len();
    let blen = b.unicode_len();
    if alen == 0 {
        true
    } else if blen == 0 {
        false
    } else {
        let ca = a.get_char(0);
        let cb = b.get_char(0);
        if (ca as u32) < (cb as u32) {
            true
        } else if (ca as u32) > (cb as u32) {
            false
        } else {
            str_lex_le(a.substring_char(1, alen), b.substring_char(1, blen))
        }
    }
}

/// The strings of `v` are in ascending `lex_le` order.
pub open spec fn sorted_lex(v: Seq<String>) -> bool {
    forall|i: int, j: int| 0 <= i < j < v.len() ==> lex_le(#[trigger] v[i]@, #[trigger] v[j]@)
}

/// Returns the index of a least string of `v` under `lex_le`.
fn index_of_min(v: &Vec<String>) -> (m: usize)
    requires
        v@.len() > 0,
    ensures
        m < v@.len(),
        forall|j: int| 0 <= j < v@.len() ==> lex_le(v@[m as int]@, #[trigger] v@[j]@),
{
    let mut m: usize = 0;
    let mut i: usize = 1;
    proof {
        lemma_lex_le_total(v@[0]@, v@[0]@);
    }
    while i < v.len()
        invariant
            m < i <= v@.len(),
            forall|j: int| 0 <= j < i ==> lex_le(v@[m as int]@, #[trigger] v@[j]@),
        decreases v@.len() - i,
    {
        if !str_lex_le(v[m].as_str(), v[i].as_str()) {
            proof {
                lemma_lex_le_total(v@[m as int]@, v@[i as int]@);
                assert forall|j: int| 0 <= j < i + 1 implies lex_le(
                    v@[i as int]@,
                    #[trigger] v@[j]@,
                ) by {
                    if j < i {
                        lemma_lex_le_trans(v@[i as int]@, v@[m as int]@, v@[j]@);
                    } else {
                        lemma_lex_le_total(v@[i as int]@, v@[i as int]@);
                    }
                }
            }
            m = i;
        }
        i = i + 1;
    }
    m
}

/// Sorts a vector of strings into ascending `lex_le` order; the result holds
/// exactly the strings given, as a multiset.
pub fn sort_strings(v: Vec<String>) -> (r: Vec<String>)
    ensures
        sorted_lex(r@),
        r@.to_multiset() == v@.to_multiset(),
{
    broadcast use vstd::seq_lib::group_to_multiset_ensures;

    let ghost orig = v@;
    let mut rest = v;
    let mut out: Vec<String> = Vec::new();
    while rest.len() > 0
        invariant
            out@.to_multiset().add(rest@.to_multiset()) == orig.to_multiset(),
            sorted_lex(out@),
            forall|i: int, j: int|
                0 <= i < out@.len() && 0 <= j < rest@.len() ==> lex_le(
                    #[trigger] out@[i]@,
                    #[trigger] rest@[j]@,
                ),
        decreases rest@.len(),
    {
        let m = index_of_min(&rest);
        let ghost old_out = out@;
        let ghost old_rest = rest@;
        let x = rest.remove(m);
        out.push(x);
        proof {
            vstd::seq_lib::to_multiset_remove(old_rest, m as int);
            vstd::seq_lib::to_multiset_build(old_out, x);
            vstd::seq_lib::to_multiset_contains(old_rest, x);
            assert(old_rest.to_multiset().count(x) > 0) by {
                assert(old_rest.contains(x)) by {
                    assert(old_rest[m as int] == x);
                }
            }
            assert(out@.to_multiset().add(rest@.to_multiset()) =~= orig.to_multiset());
            assert forall|i: int, j: int|
                0 <= i < out@.len() && 0 <= j < rest@.len() implies lex_le(
                #[trigger] out@[i]@,
                #[trigger] rest@[j]@,
            ) by {
                let jj = if j < m { j } else { j + 1 };
                assert(rest@[j] == old_rest[jj]);
                if i < out@.len() - 1 {
                    assert(lex_le(out@[i]@, old_rest[jj]@));
                } else {
                    assert(out@[i] == x);
                    assert(lex_le(x@, old_rest[jj]@));
                }
            }
        }
    }
    out
}

/// Checks whether `s` ends with `p`.
pub fn ends_with_str(s: &str, p: &str) -> (r: bool)
    ensures
        r == (p@.len() <= s@.len() && is_match_at(s@, p@, s@.len() - p@.len())),
{
    let slen = s.unicode_len();
    let plen = p.unicode_len();
    if plen > slen {
        return false;
    }
    match_at(s, p, slen - plen)
}

} // verus!

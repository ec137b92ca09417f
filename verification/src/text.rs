//! Verified text matching: substring containment for key patterns and
//! glob matching for pub/sub channel patterns.

use vstd::prelude::*;

verus! {

/// The pattern `p` occurs in `t` starting at position `i`.
pub open spec fn occurs_at(t: Seq<char>, p: Seq<char>, i: int) -> bool {
    0 <= i && i + p.len() <= t.len() && t.subrange(i, i + p.len()) =~= p
}

/// The pattern `p` occurs somewhere in `t` (substring containment,
/// not anchored; the empty pattern occurs in every text).
pub open spec fn contains_seq(t: Seq<char>, p: Seq<char>) -> bool {
    exists|i: int| occurs_at(t, p, i)
}

/// Whether `p` read as a glob pattern matches all of `s`: `*` matches any
/// run of characters, `?` matches exactly one, anything else matches
/// itself.
pub open spec fn glob_matches(p: Seq<char>, s: Seq<char>) -> bool
    decreases p.len(), s.len(),
{
    if p.len() == 0 {
        s.len() == 0
    } else if p[0] == '*' {
        glob_matches(p.skip(1), s) || (s.len() > 0 && glob_matches(p, s.skip(1)))
    } else if s.len() == 0 {
        false
    } else {
        (p[0] == '?' || p[0] == s[0]) && glob_matches(p.skip(1), s.skip(1))
    }
}

/// Character-for-character string equality.
pub fn str_eq(a: &str, b: &str) -> (r: bool)
    ensures
        r == (a@ == b@),
{
    let a_len = a.unicode_len();
    let b_len = b.unicode_len();
    if a_len != b_len {
        return false;
    }
    let mut i: usize = 0;
    while i < a_len
        invariant
            a_len == a@.len(),
            b_len == b@.len(),
            a_len == b_len,
            i <= a_len,
            forall|m: int| 0 <= m < i ==> a@[m] == b@[m],
        decreases a_len - i,
    {
        if a.get_char(i) != b.get_char(i) {
            return false;
        }
        i += 1;
    }
    proof {
        assert(a@ =~= b@);
    }
    true
}

/// Whether `p` occurs in `t` starting exactly at position `i`.
fn matches_at(t: &str, p: &str, i: usize, t_len: usize, p_len: usize) -> (r: bool)
    requires
        t_len == t@.len(),
        p_len == p@.len(),
        i + p_len <= t_len,
    ensures
        r == occurs_at(t@, p@, i as int),
{
    let mut j: usize = 0;
    while j < p_len
        invariant
            t_len == t@.len(),
            p_len == p@.len(),
            i + p_len <= t_len,
            j <= p_len,
            forall|m: int| 0 <= m < j ==> t@[i + m] == p@[m],
        decreases p_len - j,
    {
        if t.get_char(i + j) != p.get_char(j) {
            assert(t@.subrange(i as int, i + p@.len())[j as int] != p@[j as int]);
            return false;
        }
        j += 1;
    }
    assert(t@.subrange(i as int, i + p@.len()) =~= p@);
    true
}

/// Substring containment: whether `p` occurs anywhere in `t`.
pub fn contains_str(t: &str, p: &str) -> (r: bool)
    ensures
        r == contains_seq(t@, p@),
{
    let t_len = t.unicode_len();
    let p_len = p.unicode_len();
    if p_len > t_len {
        assert(forall|i: int| !occurs_at(t@, p@, i));
        return false;
    }
    let mut i: usize = 0;
    loop
        invariant
            t_len == t@.len(),
            p_len == p@.len(),
            p_len <= t_len,
            i <= t_len - p_len + 1,
            forall|m: int| 0 <= m < i ==> !occurs_at(t@, p@, m),
        decreases t_len - p_len - i + 1,
    {
        if i > t_len - p_len {
            assert(forall|m: int| !occurs_at(t@, p@, m));
            return false;
        }
        if matches_at(t, p, i, t_len, p_len) {
            return true;
        }
        i += 1;
    }
}

/// Recursive worker for glob matching: whether `p` from position `pi` on
/// matches `s` from position `si` on.
fn glob_matches_from(p: &str, s: &str, pi: usize, si: usize, p_len: usize, s_len: usize) -> (r:
    bool)
    requires
        p_len == p@.len(),
        s_len == s@.len(),
        pi <= p_len,
        si <= s_len,
    ensures
        r == glob_matches(p@.skip(pi as int), s@.skip(si as int)),
    decreases p_len - pi, s_len - si,
{
    let ghost pt = p@.skip(pi as int);
    let ghost st = s@.skip(si as int);
    if pi == p_len {
        assert(pt.len() == 0);
        si == s_len
    } else {
        let pc = p.get_char(pi);
        assert(pt[0] == p@[pi as int]);
        if pc == '*' {
            assert(pt.skip(1) =~= p@.skip(pi + 1));
            if glob_matches_from(p, s, pi + 1, si, p_len, s_len) {
                true
            } else if si < s_len {
                assert(st.skip(1) =~= s@.skip(si + 1));
                glob_matches_from(p, s, pi, si + 1, p_len, s_len)
            } else {
                false
            }
        } else if si == s_len {
            assert(st.len() == 0);
            false
        } else {
            let sc = s.get_char(si);
            assert(st[0] == s@[si as int]);
            if pc == '?' || pc == sc {
                assert(pt.skip(1) =~= p@.skip(pi + 1));
                assert(st.skip(1) =~= s@.skip(si + 1));
                glob_matches_from(p, s, pi + 1, si + 1, p_len, s_len)
            } else {
                false
            }
        }
    }
}

/// Whether the glob pattern `p` matches the whole of `s`.
pub fn glob_match(p: &str, s: &str) -> (r: bool)
    ensures
        r == glob_matches(p@, s@),
{
    let p_len = p.unicode_len();
    let s_len = s.unicode_len();
    let r = glob_matches_from(p, s, 0, 0, p_len, s_len);
    assert(p@.skip(0) =~= p@);
    assert(s@.skip(0) =~= s@);
    r
}

} // verus!

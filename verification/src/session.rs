//! The session locator: derives the per-session socket path and
//! process-id marker path from a session name, and reads a process id
//! out of a marker file's contents. Pure: the temporary directory is a
//! parameter, so the same inputs always give the same paths.

use vstd::prelude::*;

verus! {

broadcast use vstd::seq::group_seq_axioms;

/// The session file prefix inside the temporary directory.
pub open spec fn session_prefix(tmp: Seq<char>) -> Seq<char> {
    tmp + "/agent-browser-"@
}

/// The socket path for a session.
pub open spec fn socket_path_of(tmp: Seq<char>, session: Seq<char>) -> Seq<char> {
    session_prefix(tmp) + session + ".sock"@
}

/// The process-id marker path for a session.
pub open spec fn pid_path_of(tmp: Seq<char>, session: Seq<char>) -> Seq<char> {
    session_prefix(tmp) + session + ".pid"@
}

fn join3(tmp: &str, mid: &str, session: &str, suffix: &str) -> (r: String)
    ensures
        r@ == tmp@ + mid@ + session@ + suffix@,
{
    let mut out = crate::strutil::str_to_chars(tmp);
    let mut m = crate::strutil::str_to_chars(mid);
    out.append(&mut m);
    let mut s = crate::strutil::str_to_chars(session);
    out.append(&mut s);
    let mut x = crate::strutil::str_to_chars(suffix);
    out.append(&mut x);
    crate::strutil::chars_to_string(&out)
}

/// The socket path for a session, under the given temporary directory.
pub fn get_socket_path(tmp: &str, session: &str) -> (r: String)
    ensures
        r@ == socket_path_of(tmp@, session@),
{
    join3(tmp, "/agent-browser-", session, ".sock")
}

/// The process-id marker path for a session, under the given temporary
/// directory.
pub fn get_pid_path(tmp: &str, session: &str) -> (r: String)
    ensures
        r@ == pid_path_of(tmp@, session@),
{
    join3(tmp, "/agent-browser-", session, ".pid")
}

proof fn lemma_affix_injective(p: Seq<char>, s1: Seq<char>, s2: Seq<char>, q: Seq<char>)
    requires
        p + s1 + q == p + s2 + q,
    ensures
        s1 == s2,
{
    let w1 = p + s1 + q;
    let w2 = p + s2 + q;
    assert(w1.len() == p.len() + s1.len() + q.len());
    assert(w2.len() == p.len() + s2.len() + q.len());
    assert(s1.len() == s2.len());
    assert forall|k: int| 0 <= k < s1.len() implies s1[k] == s2[k] by {
        assert(w1[p.len() + k] == s1[k]);
        assert(w2[p.len() + k] == s2[k]);
    }
    assert(s1 =~= s2);
}

/// Distinct session names never collide: their socket paths differ,
/// their marker paths differ, and no socket path ever equals a marker
/// path.
pub proof fn lemma_session_paths_distinct(tmp: Seq<char>, s1: Seq<char>, s2: Seq<char>)
    ensures
        s1 != s2 ==> socket_path_of(tmp, s1) != socket_path_of(tmp, s2),
        s1 != s2 ==> pid_path_of(tmp, s1) != pid_path_of(tmp, s2),
        socket_path_of(tmp, s1) != pid_path_of(tmp, s2),
{
    reveal_strlit(".sock");
    reveal_strlit(".pid");
    if socket_path_of(tmp, s1) == socket_path_of(tmp, s2) {
        lemma_affix_injective(session_prefix(tmp), s1, s2, ".sock"@);
    }
    if pid_path_of(tmp, s1) == pid_path_of(tmp, s2) {
        lemma_affix_injective(session_prefix(tmp), s1, s2, ".pid"@);
    }
    let a = socket_path_of(tmp, s1);
    let b = pid_path_of(tmp, s2);
    if a == b {
        assert(a[a.len() - 1] == 'k');
        assert(b[b.len() - 1] == 'd');
    }
}

// ---------------------------------------------------------------------------
// Reading the marker file's contents
// ---------------------------------------------------------------------------

/// The contents with leading whitespace removed.
pub open spec fn ltrim(s: Seq<char>) -> Seq<char>
    decreases s.len(),
{
    if s.len() > 0 && crate::json::is_ws(s[0]) {
        ltrim(s.drop_first())
    } else {
        s
    }
}

/// The contents with trailing whitespace removed.
pub open spec fn rtrim(s: Seq<char>) -> Seq<char>
    decreases s.len(),
{
    if s.len() > 0 && crate::json::is_ws(s.last()) {
        rtrim(s.drop_last())
    } else {
        s
    }
}

/// What a marker file's contents mean: the stored decimal process id,
/// with surrounding whitespace ignored; nothing when the text does not
/// parse as one.
pub open spec fn spec_parse_pid(s: Seq<char>) -> Option<i32> {
    crate::numtext::spec_parse_i32(rtrim(ltrim(s)))
}

/// Reads a process id out of marker-file contents, exactly as
/// [`spec_parse_pid`] says.
#[verifier::loop_isolation(false)]
pub fn parse_pid(s: &str) -> (r: Option<i32>)
    ensures
        r == spec_parse_pid(s@),
{
    let cs = crate::strutil::str_to_chars(s);
    proof {
        assert(s@.subrange(0, s@.len() as int) =~= s@);
    }
    let mut i: usize = 0;
    while i < cs.len() && (cs[i] == ' ' || cs[i] == '\n' || cs[i] == '\r' || cs[i] == '\t')
        invariant
            0 <= i <= cs.len(),
            ltrim(s@) == ltrim(s@.subrange(i as int, s@.len() as int)),
        decreases cs.len() - i,
    {
        proof {
            let cur = s@.subrange(i as int, s@.len() as int);
            assert(cur[0] == s@[i as int]);
            assert(cur.drop_first() =~= s@.subrange(i + 1 as int, s@.len() as int));
        }
        i = i + 1;
    }
    proof {
        let cur = s@.subrange(i as int, s@.len() as int);
        if cur.len() > 0 {
            assert(cur[0] == s@[i as int]);
        }
        assert(ltrim(s@) == cur);
    }
    let mut j: usize = cs.len();
    while j > i && (cs[j - 1] == ' ' || cs[j - 1] == '\n' || cs[j - 1] == '\r' || cs[j - 1]
        == '\t')
        invariant
            i <= j <= cs.len(),
            rtrim(ltrim(s@)) == rtrim(s@.subrange(i as int, j as int)),
        decreases j,
    {
        proof {
            let cur = s@.subrange(i as int, j as int);
            assert(cur.last() == s@[j - 1 as int]);
            assert(cur.drop_last() =~= s@.subrange(i as int, j - 1 as int));
        }
        j = j - 1;
    }
    proof {
        let cur = s@.subrange(i as int, j as int);
        if cur.len() > 0 {
            assert(cur.last() == s@[j - 1 as int]);
        }
        assert(rtrim(ltrim(s@)) == cur);
    }
    let mut t: Vec<char> = Vec::new();
    let mut k: usize = i;
    while k < j
        invariant
            i <= k <= j <= cs.len(),
            t@ == s@.subrange(i as int, k as int),
        decreases j - k,
    {
        t.push(cs[k]);
        proof {
            assert(t@ =~= s@.subrange(i as int, k + 1 as int));
        }
        k = k + 1;
    }
    let ts = crate::strutil::chars_to_string(&t);
    crate::numtext::parse_i32(ts.as_str())
}

} // verus!

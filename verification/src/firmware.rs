//! Decisions of the display firmware that polls the server: when to refresh fully,
//! and where the control endpoints live.
use vstd::prelude::*;

verus! {

/// A full refresh every this many fetch cycles clears the ghosting of partial ones.
pub const FULL_REFRESH_EVERY: u32 = 60;

/// Whether fetch cycle `cycle` ends with a full refresh (the first one and every 60th),
/// rather than a partial one.
pub fn full_refresh_due(cycle: u32) -> (full: bool)
    ensures
        full == (cycle == 0 || cycle % 60 == 0),
{
    cycle == 0 || cycle % FULL_REFRESH_EVERY == 0
}

/// Position of the last '/' in `s`, or -1 when there is none.
pub open spec fn last_slash(s: Seq<char>) -> int
    decreases s.len(),
{
    if s.len() == 0 {
        -1
    } else if s.last() == '/' {
        s.len() - 1
    } else {
        last_slash(s.drop_last())
    }
}

/// The server's base URL: the framebuffer URL up to (not including) its last '/', or
/// the whole URL when it has none.
pub open spec fn base_of(url: Seq<char>) -> Seq<char> {
    if last_slash(url) < 0 {
        url
    } else {
        url.take(last_slash(url))
    }
}

proof fn lemma_last_slash_bounds(s: Seq<char>)
    ensures
        -1 <= last_slash(s) < s.len(),
        last_slash(s) >= 0 ==> s[last_slash(s)] == '/',
    decreases s.len(),
{
    if s.len() > 0 && s.last() != '/' {
        lemma_last_slash_bounds(s.drop_last());
    }
}

/// Base URL of the server, derived from the framebuffer URL.
pub fn server_base(url: &str) -> (base: &str)
    ensures
        base@ == base_of(url@),
{
    let n = url.unicode_len();
    let mut found: bool = false;
    let mut pos: usize = 0;
    let mut i: usize = 0;
    while i < n
        invariant
            n == url@.len(),
            i <= n,
            found ==> pos < i && last_slash(url@.take(i as int)) == pos,
            !found ==> last_slash(url@.take(i as int)) == -1,
        decreases n - i,
    {
        assert(url@.take(i + 1).drop_last() =~= url@.take(i as int));
        if url.get_char(i) == '/' {
            found = true;
            pos = i;
        }
        i = i + 1;
    }
    assert(url@.take(n as int) =~= url@);
    proof {
        lemma_last_slash_bounds(url@);
    }
    if found {
        url.substring_char(0, pos)
    } else {
        assert(url@.subrange(0, n as int) =~= url@);
        url.substring_char(0, n)
    }
}

/// The base URL is the framebuffer URL cut at its last '/': it is a prefix of the URL;
/// when the URL holds a '/', the character right after the base is a '/' and none
/// follows it; when it holds none, the base is the whole URL.
pub proof fn lemma_base_cut_at_last_slash(url: Seq<char>)
    ensures
        base_of(url).len() <= url.len(),
        base_of(url) == url.take(base_of(url).len() as int),
        (exists|i: int| 0 <= i < url.len() && url[i] == '/') ==> url[base_of(url).len() as int] == '/'
            && forall|i: int| base_of(url).len() < i < url.len() ==> url[i] != '/',
        (forall|i: int| 0 <= i < url.len() ==> url[i] != '/') ==> base_of(url) == url,
{
    lemma_last_slash_bounds(url);
    lemma_last_slash_is_last(url);
    if last_slash(url) < 0 {
        assert(url.take(url.len() as int) =~= url);
        if exists|i: int| 0 <= i < url.len() && url[i] == '/' {
            let i = choose|i: int| 0 <= i < url.len() && url[i] == '/';
            assert(false);
        }
    } else {
        assert(base_of(url) =~= url.take(last_slash(url)));
    }
}

proof fn lemma_last_slash_is_last(s: Seq<char>)
    ensures
        forall|i: int| last_slash(s) < i < s.len() ==> s[i] != '/',
    decreases s.len(),
{
    lemma_last_slash_bounds(s);
    if s.len() > 0 && s.last() != '/' {
        lemma_last_slash_is_last(s.drop_last());
        assert forall|i: int| last_slash(s) < i < s.len() implies s[i] != '/' by {
            if i < s.len() - 1 {
                assert(s[i] == s.drop_last()[i]);
            }
        }
    }
}

} // verus!

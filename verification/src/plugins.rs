//! Where a plugin found on disk is registered in object storage, and the
//! path segments under which a plugin's file is looked up there.
use vstd::prelude::*;
use crate::text::{opt_str_chars, str_chars, string_from_chars};

verus! {

/// `s` with each backslash turned into a slash.
pub open spec fn slashes(s: Seq<char>) -> Seq<char> {
    s.map_values(|c: char| if c == '\\' { '/' } else { c })
}

/// `s` without its trailing slashes (`str::trim_end_matches('/')`).
pub open spec fn trim_trailing_slashes(s: Seq<char>) -> Seq<char>
    decreases s.len(),
{
    if s.len() > 0 && s.last() == '/' {
        trim_trailing_slashes(s.drop_last())
    } else {
        s
    }
}

/// The object prefix of a plugin directory: its path relative to the
/// plugin root with forward slashes, under `root` (trailing slashes
/// dropped) when a non-empty root is given.
pub open spec fn spec_object_prefix(relative: Seq<char>, root: Option<Seq<char>>) -> Seq<char> {
    match root {
        Some(r) => if r.len() > 0 {
            trim_trailing_slashes(r) + "/"@ + slashes(relative)
        } else {
            slashes(relative)
        },
        None => slashes(relative),
    }
}

pub fn plugin_object_prefix(relative: &str, root: Option<&str>) -> (res: String)
    ensures
        res@ == spec_object_prefix(relative@, opt_str_chars(root)),
{
    let rc = str_chars(relative);
    let mut prefix: Vec<char> = Vec::new();
    let mut i: usize = 0;
    while i < rc.len()
        invariant
            i <= rc.len(),
            prefix@ == slashes(rc@.take(i as int)),
        decreases rc.len() - i,
    {
        let c = rc[i];
        prefix.push(if c == '\\' { '/' } else { c });
        assert(prefix@ =~= slashes(rc@.take(i + 1)));
        i = i + 1;
    }
    assert(rc@.take(i as int) =~= rc@);
    match root {
        Some(r) => {
            let mut rv = str_chars(r);
            if rv.len() == 0 {
                return string_from_chars(prefix.as_slice());
            }
            let ghost r0 = rv@;
            while rv.len() > 0 && rv[rv.len() - 1] == '/'
                invariant
                    trim_trailing_slashes(r0) == trim_trailing_slashes(rv@),
                decreases rv.len(),
            {
                let ghost before = rv@;
                rv.pop();
                assert(rv@ =~= before.drop_last());
            }
            let ghost trimmed = rv@;
            rv.push('/');
            let mut k: usize = 0;
            let ghost base = rv@;
            while k < prefix.len()
                invariant
                    k <= prefix.len(),
                    rv@ == base + prefix@.take(k as int),
                decreases prefix.len() - k,
            {
                rv.push(prefix[k]);
                assert(rv@ =~= base + prefix@.take(k + 1));
                k = k + 1;
            }
            proof {
                assert(prefix@.take(k as int) =~= prefix@);
                assert(trimmed == trim_trailing_slashes(r0));
                assert(rv@ =~= trim_trailing_slashes(r@) + "/"@ + slashes(relative@)) by {
                    reveal_strlit("/");
                }
            }
            string_from_chars(rv.as_slice())
        },
        None => string_from_chars(prefix.as_slice()),
    }
}

/// The segments of a path split at slashes, empty ones left out, with the
/// segment still being read: (finished segments, current segment).
pub open spec fn split_state(s: Seq<char>) -> (Seq<Seq<char>>, Seq<char>)
    decreases s.len(),
{
    if s.len() == 0 {
        (Seq::empty(), Seq::empty())
    } else {
        let (done, cur) = split_state(s.drop_last());
        if s.last() == '/' {
            (if cur.len() > 0 { done.push(cur) } else { done }, Seq::empty())
        } else {
            (done, cur.push(s.last()))
        }
    }
}

/// The non-empty segments of a slash-separated path, in order (leading
/// slashes, and empty segments between slashes, are dropped).
pub open spec fn path_segments(s: Seq<char>) -> Seq<Seq<char>> {
    let (done, cur) = split_state(s);
    if cur.len() > 0 {
        done.push(cur)
    } else {
        done
    }
}

/// The segments a plugin file's path is looked up under, below the
/// plugin's object prefix: the non-empty parts between slashes.
pub fn plugin_file_segments(path: &str) -> (res: Vec<String>)
    ensures
        res@.map_values(|x: String| x@) == path_segments(path@),
{
    let chars = str_chars(path);
    let mut done: Vec<String> = Vec::new();
    let mut cur: Vec<char> = Vec::new();
    let mut i: usize = 0;
    while i < chars.len()
        invariant
            i <= chars.len(),
            chars@ == path@,
            (done@.map_values(|x: String| x@), cur@) == split_state(chars@.take(i as int)),
        decreases chars.len() - i,
    {
        proof {
            assert(chars@.take(i + 1).drop_last() =~= chars@.take(i as int));
        }
        let c = chars[i];
        if c == '/' {
            if cur.len() > 0 {
                let ghost before = done@;
                done.push(string_from_chars(cur.as_slice()));
                assert(done@.map_values(|x: String| x@) =~= before.map_values(|x: String| x@).push(cur@));
            }
            cur = Vec::new();
        } else {
            cur.push(c);
        }
        i = i + 1;
    }
    assert(chars@.take(i as int) =~= chars@);
    if cur.len() > 0 {
        let ghost before = done@;
        done.push(string_from_chars(cur.as_slice()));
        assert(done@.map_values(|x: String| x@) =~= before.map_values(|x: String| x@).push(cur@));
    }
    done
}

} // verus!

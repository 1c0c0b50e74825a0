//! Path arithmetic on plain strings: absolute-path test, joining against a
//! working directory, and the directory containing a path.  Paths use `/`
//! as the separator.

use vstd::prelude::*;

verus! {

/// Whether a path stands on its own, needing no working directory.
pub open spec fn is_absolute_path(p: Seq<char>) -> bool {
    p.len() > 0 && p[0] == '/'
}

/// The index after the last separator of `p`: where its file name begins.
pub open spec fn name_start(p: Seq<char>) -> int
    decreases p.len(),
{
    if p.len() == 0 {
        0
    } else if p.last() == '/' {
        p.len() as int
    } else {
        name_start(p.drop_last())
    }
}

pub proof fn lemma_name_start_bounds(p: Seq<char>)
    ensures
        0 <= name_start(p) <= p.len(),
    decreases p.len(),
{
    if p.len() > 0 && p.last() != '/' {
        lemma_name_start_bounds(p.drop_last());
    }
}

/// A relative path resolved against a working directory.  An empty working
/// directory leaves the path as it stands.
pub open spec fn join_path(cwd: Seq<char>, rel: Seq<char>) -> Seq<char> {
    if cwd.len() == 0 {
        rel
    } else if cwd.last() == '/' {
        cwd + rel
    } else {
        cwd + seq!['/'] + rel
    }
}

/// The directory that holds `p`: everything before its file name, without
/// the trailing separator (kept for the root), or the empty string for a
/// bare file name.
pub open spec fn dir_of(p: Seq<char>) -> Seq<char> {
    let ns = name_start(p);
    if ns == 0 {
        Seq::empty()
    } else if ns == 1 {
        seq!['/']
    } else {
        p.subrange(0, ns - 1)
    }
}

/// Whether a path stands on its own, needing no working directory.
pub fn is_absolute(p: &String) -> (r: bool)
    ensures
        r == is_absolute_path(p@),
{
    let n = p.as_str().unicode_len();
    if n == 0 {
        false
    } else {
        p.as_str().get_char(0) == '/'
    }
}

/// The index where the file name of `p` begins.
pub fn find_name_start(p: &String) -> (r: usize)
    ensures
        r == name_start(p@),
{
    let n = p.as_str().unicode_len();
    let mut i = n;
    proof {
        assert(p@.subrange(0, n as int) =~= p@);
    }
    while i > 0
        invariant
            i <= n,
            n == p@.len(),
            name_start(p@) == name_start(p@.subrange(0, i as int)),
        decreases i,
    {
        let c = p.as_str().get_char(i - 1);
        proof {
            let pre = p@.subrange(0, i as int);
            assert(pre.last() == p@[i - 1]);
            assert(pre.drop_last() =~= p@.subrange(0, i - 1));
        }
        if c == '/' {
            return i;
        }
        i = i - 1;
    }
    proof {
        assert(p@.subrange(0, 0) =~= Seq::<char>::empty());
    }
    0
}

/// A relative path resolved against a working directory.
pub fn join(cwd: &String, rel: &String) -> (r: String)
    ensures
        r@ == join_path(cwd@, rel@),
{
    let n = cwd.as_str().unicode_len();
    if n == 0 {
        return rel.clone();
    }
    let mut out = cwd.clone();
    if cwd.as_str().get_char(n - 1) != '/' {
        out.append("/");
        proof {
            reveal_strlit("/");
            assert(out@ =~= cwd@ + seq!['/']);
        }
    }
    out.append(rel.as_str());
    proof {
        if cwd@.last() != '/' {
            assert(out@ =~= cwd@ + seq!['/'] + rel@);
        }
    }
    out
}

/// The directory that holds `p`.
pub fn parent_dir(p: &String) -> (r: String)
    ensures
        r@ == dir_of(p@),
{
    let ns = find_name_start(p);
    proof {
        lemma_name_start_bounds(p@);
    }
    if ns == 0 {
        let r = String::new();
        proof {
            assert(r@ =~= dir_of(p@));
        }
        r
    } else if ns == 1 {
        let r: String = String::from_str("/");
        proof {
            reveal_strlit("/");
            assert(r@ =~= dir_of(p@));
        }
        r
    } else {
        let s = p.as_str().substring_char(0, ns - 1);
        s.to_owned()
    }
}

} // verus!

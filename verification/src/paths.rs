//! Paths as text: joining a name onto a directory, the last component of a
//! path, and the extension of a file name.

use vstd::prelude::*;

verus! {

/// The index of the last `c` in `s`, or -1 where `s` holds none.
pub open spec fn last_pos(s: Seq<char>, c: char) -> int
    decreases s.len(),
{
    if s.len() == 0 {
        -1
    } else if s.last() == c {
        s.len() - 1
    } else {
        last_pos(s.drop_last(), c)
    }
}

proof fn lemma_last_pos(s: Seq<char>, c: char)
    ensures
        -1 <= last_pos(s, c) < s.len(),
        last_pos(s, c) >= 0 ==> s[last_pos(s, c)] == c,
        forall|j: int| last_pos(s, c) < j < s.len() ==> s[j] != c,
    decreases s.len(),
{
    if s.len() > 0 && s.last() != c {
        lemma_last_pos(s.drop_last(), c);
        assert forall|j: int| last_pos(s, c) < j < s.len() implies s[j] != c by {
            if j < s.len() - 1 {
                assert(s.drop_last()[j] == s[j]);
            }
        }
    }
}

/// Finds the last `c` in `s`.
pub fn last_index_of(s: &str, c: char) -> (r: Option<usize>)
    ensures
        match r {
            Some(i) => last_pos(s@, c) == i,
            None => last_pos(s@, c) == -1,
        },
{
    let mut j = s.unicode_len();
    assert(s@.take(j as int) =~= s@);
    while j > 0
        invariant
            j <= s@.len(),
            last_pos(s@, c) == last_pos(s@.take(j as int), c),
        decreases j,
    {
        assert(s@.take(j as int).last() == s@[j - 1]);
        if s.get_char(j - 1) == c {
            return Some(j - 1);
        }
        assert(s@.take(j as int).drop_last() =~= s@.take(j - 1));
        j = j - 1;
    }
    None
}

/// The path that `PathBuf::push` makes of `base` and `p` on Unix: `p` itself
/// where it is absolute, else `p` after `base` with one `/` between.
pub open spec fn pushed(base: Seq<char>, p: Seq<char>) -> Seq<char> {
    if p.len() > 0 && p[0] == '/' {
        p
    } else if base.len() > 0 && base.last() != '/' {
        base + seq!['/'] + p
    } else {
        base + p
    }
}

/// Joins `p` onto the directory `base`, as `PathBuf::push` does on Unix.
pub fn push_path(base: &str, p: &str) -> (r: String)
    ensures
        r@ == pushed(base@, p@),
{
    proof {
        reveal_strlit("/");
    }
    let pn = p.unicode_len();
    if pn > 0 && p.get_char(0) == '/' {
        return p.to_owned();
    }
    let bn = base.unicode_len();
    let mut out = base.to_owned();
    if bn > 0 && base.get_char(bn - 1) != '/' {
        out.append("/");
    }
    out.append(p);
    out
}

/// The last `/`-separated piece of `path`; all of it where it holds no `/`.
pub open spec fn last_component(path: Seq<char>) -> Seq<char> {
    path.skip(last_pos(path, '/') + 1)
}

/// The last `/`-separated piece of `path`, as `split("/").last()` gives it.
pub fn file_name_of(path: &str) -> (r: String)
    ensures
        r@ == last_component(path@),
{
    proof {
        lemma_last_pos(path@, '/');
    }
    let n = path.unicode_len();
    match last_index_of(path, '/') {
        Some(i) => {
            assert(path@.subrange(i + 1, n as int) =~= last_component(path@));
            path.substring_char(i + 1, n).to_owned()
        },
        None => {
            assert(path@ =~= last_component(path@));
            path.to_owned()
        },
    }
}

/// The extension of the file name `name`, as `Path::extension` gives it: the
/// text after the last `.`, or `None` where there is no `.`, where the only
/// `.` begins the name, and for `..`.
pub open spec fn extension(name: Seq<char>) -> Option<Seq<char>> {
    let i = last_pos(name, '.');
    if name == seq!['.', '.'] || i <= 0 {
        None
    } else {
        Some(name.skip(i + 1))
    }
}

/// The extension of a file name.
pub fn extension_of(name: &str) -> (r: Option<String>)
    ensures
        match r {
            Some(e) => extension(name@) == Some(e@),
            None => extension(name@) is None,
        },
{
    proof {
        lemma_last_pos(name@, '.');
    }
    let n = name.unicode_len();
    if n == 2 && name.get_char(0) == '.' && name.get_char(1) == '.' {
        assert(name@ =~= seq!['.', '.']);
        return None;
    }
    assert(name@ != seq!['.', '.']) by {
        if name@ == seq!['.', '.'] {
            assert(name@[0] == '.' && name@[1] == '.');
        }
    }
    match last_index_of(name, '.') {
        Some(i) => {
            if i == 0 {
                None
            } else {
                assert(name@.subrange(i + 1, n as int) =~= name@.skip(i + 1));
                Some(name.substring_char(i + 1, n).to_owned())
            }
        },
        None => None,
    }
}

} // verus!

//! Pure path arithmetic over `/`-separated path strings.
//!
//! Paths are modelled as their character sequences, and the separator is
//! a pure delimiter: nothing is normalized. A path's parent is the
//! prefix before its last separator (`/a/b` → `/a`, `/a` → `/`); a path
//! without a separator, and the root `/` itself, have no parent.
//! Directory entry names carry a trailing separator (`Documents/`);
//! [`stem_seq`] drops it and [`join_seq`] splices a stem onto a
//! directory path.

use vstd::prelude::*;
use vstd::string::StrSliceExecFns;
use vstd::string::StringExecFns;

verus! {

/// Index of the last `/` in `s`, or `-1` if `s` holds none.
pub open spec fn last_sep(s: Seq<char>) -> int
    decreases s.len(),
{
    if s.len() == 0 {
        -1
    } else if s.last() == '/' {
        s.len() - 1
    } else {
        last_sep(s.drop_last())
    }
}

/// The parent of a path, if it has one: the prefix before the last
/// separator, except that a parent that would be empty is the root `/`.
pub open spec fn parent_seq(s: Seq<char>) -> Option<Seq<char>> {
    let i = last_sep(s);
    if i == -1 {
        None
    } else if i == 0 {
        if s.len() == 1 {
            None
        } else {
            Some(seq!['/'])
        }
    } else {
        Some(s.subrange(0, i))
    }
}

/// Everything after the last separator (the whole path if there is none).
pub open spec fn last_component_seq(s: Seq<char>) -> Seq<char> {
    s.subrange(last_sep(s) + 1, s.len() as int)
}

/// `dir` and `name` joined by a separator; no separator is added after a
/// directory path that already ends with one (such as the root).
pub open spec fn join_seq(dir: Seq<char>, name: Seq<char>) -> Seq<char> {
    if dir.len() > 0 && dir.last() == '/' {
        dir + name
    } else {
        dir + seq!['/'] + name
    }
}

/// An entry name with its trailing separator (if any) dropped.
pub open spec fn stem_seq(name: Seq<char>) -> Seq<char> {
    if name.len() > 0 && name.last() == '/' {
        name.drop_last()
    } else {
        name
    }
}

/// `last_sep` points at a separator and nothing after it is one.
pub proof fn lemma_last_sep_props(s: Seq<char>)
    ensures
        last_sep(s) == -1 ==> forall|k: int| 0 <= k < s.len() ==> s[k] != '/',
        last_sep(s) != -1 ==> -1 < last_sep(s) < s.len(),
        last_sep(s) != -1 ==> s[last_sep(s)] == '/',
        forall|k: int| last_sep(s) < k < s.len() ==> s[k] != '/',
    decreases s.len(),
{
    if s.len() == 0 {
    } else if s.last() == '/' {
    } else {
        lemma_last_sep_props(s.drop_last());
        assert(forall|k: int| 0 <= k < s.len() - 1 ==> s[k] == s.drop_last()[k]);
    }
}

/// A separator that nothing after it matches is the last one.
pub proof fn lemma_last_sep_at(s: Seq<char>, j: int)
    requires
        0 <= j < s.len(),
        s[j] == '/',
        forall|k: int| j < k < s.len() ==> s[k] != '/',
    ensures
        last_sep(s) == j,
    decreases s.len(),
{
    if j == s.len() - 1 {
    } else {
        assert(s.last() != '/');
        assert(s.drop_last()[j] == s[j]);
        lemma_last_sep_at(s.drop_last(), j);
    }
}

/// A path without separators has no last one.
pub proof fn lemma_last_sep_none(s: Seq<char>)
    requires
        forall|k: int| 0 <= k < s.len() ==> s[k] != '/',
    ensures
        last_sep(s) == -1,
    decreases s.len(),
{
    if s.len() > 0 {
        lemma_last_sep_none(s.drop_last());
    }
}

/// Splitting a joined path recovers its two parts: the parent of
/// `join_seq(dir, name)` is `dir` and its last component is `name`,
/// whenever `name` is a non-empty separator-free component and `dir` is
/// the root or does not end with a separator.
pub proof fn lemma_parent_of_join(dir: Seq<char>, name: Seq<char>)
    requires
        dir.len() > 0,
        dir == seq!['/'] || dir.last() != '/',
        name.len() > 0,
        forall|k: int| 0 <= k < name.len() ==> name[k] != '/',
    ensures
        parent_seq(join_seq(dir, name)) == Some(dir),
        last_component_seq(join_seq(dir, name)) == name,
{
    let s = join_seq(dir, name);
    if dir.len() > 0 && dir.last() == '/' {
        assert(dir =~= seq!['/']);
        assert(s == dir + name);
        assert(s[0] == '/');
        assert(forall|k: int| 0 < k < s.len() ==> s[k] == name[k - 1]);
        lemma_last_sep_at(s, 0);
        assert(parent_seq(s) == Some(seq!['/']));
        assert(seq!['/'] =~= dir);
        assert(last_component_seq(s) =~= name);
    } else {
        let j = dir.len() as int;
        assert(s == dir + seq!['/'] + name);
        assert(s[j] == '/');
        assert(forall|k: int| j < k < s.len() ==> s[k] == name[k - j - 1]);
        lemma_last_sep_at(s, j);
        assert(s.subrange(0, j) =~= dir);
        assert(parent_seq(s) == Some(dir));
        assert(last_component_seq(s) =~= name);
    }
}

/// Position of the last `/` in `path`, if any.
fn find_last_sep(path: &str) -> (r: Option<usize>)
    ensures
        r is None ==> last_sep(path@) == -1,
        r matches Some(j) ==> last_sep(path@) == j as int && (j as int) < path@.len(),
{
    let n = path.unicode_len();
    let mut i: usize = 0;
    let mut found: Option<usize> = None;
    while i < n
        invariant
            i <= n,
            n == path@.len(),
            found is None ==> forall|k: int| 0 <= k < i ==> path@[k] != '/',
            found matches Some(j) ==> j < i && path@[j as int] == '/' && forall|k: int|
                j < k < i ==> path@[k] != '/',
        decreases n - i,
    {
        if path.get_char(i) == '/' {
            found = Some(i);
        }
        i += 1;
    }
    proof {
        match found {
            None => lemma_last_sep_none(path@),
            Some(j) => lemma_last_sep_at(path@, j as int),
        }
    }
    found
}

/// The parent directory of `path`, by [`parent_seq`].
///
/// The rule is deliberately simpler than the standard library's path
/// parsing, which normalizes, and deviates from it in three ways. On a
/// path without a separator this is `None`: a bare name is treated as
/// having no parent, where the standard library would answer with an
/// empty parent — ascending into an empty directory string could only
/// fail its reload, so the explorer treats such a path as a root
/// instead. And trailing or repeated separators are not collapsed: the
/// parent of `a/b/` is `a/b`, and of `a//b` is `a/`. The explorer's own
/// navigation never forms such paths — they can only arrive from a
/// caller or a backend, and come back out by the same fixed rule.
pub fn parent_of(path: &str) -> (r: Option<String>)
    ensures
        r is None <==> parent_seq(path@) is None,
        r matches Some(p) ==> parent_seq(path@) == Some(p@),
{
    let n = path.unicode_len();
    proof {
        lemma_last_sep_props(path@);
    }
    match find_last_sep(path) {
        None => None,
        Some(j) => {
            if j == 0 {
                if n == 1 {
                    None
                } else {
                    let root = path.substring_char(0, 1).to_owned();
                    proof {
                        assert(root@ =~= seq!['/']);
                    }
                    Some(root)
                }
            } else {
                Some(path.substring_char(0, j).to_owned())
            }
        },
    }
}

/// Everything in `path` after the last separator, by [`last_component_seq`].
pub fn last_component_of(path: &str) -> (r: String)
    ensures
        r@ == last_component_seq(path@),
{
    let n = path.unicode_len();
    match find_last_sep(path) {
        None => {
            let r = path.to_owned();
            proof {
                assert(r@ =~= last_component_seq(path@));
            }
            r
        },
        Some(j) => {
            let r = path.substring_char(j + 1, n).to_owned();
            r
        },
    }
}

/// `dir` and `name` joined by a separator, by [`join_seq`].
pub fn join_path(dir: &str, name: &str) -> (r: String)
    ensures
        r@ == join_seq(dir@, name@),
{
    let n = dir.unicode_len();
    let mut out = dir.to_owned();
    if n == 0 || dir.get_char(n - 1) != '/' {
        out.append("/");
        proof {
            reveal_strlit("/");
            assert("/"@ =~= seq!['/']);
        }
    }
    out.append(name);
    out
}

/// An entry name with its trailing separator dropped, by [`stem_seq`].
pub fn stem_of(name: &str) -> (r: String)
    ensures
        r@ == stem_seq(name@),
{
    let n = name.unicode_len();
    if n > 0 && name.get_char(n - 1) == '/' {
        let r = name.substring_char(0, n - 1).to_owned();
        proof {
            assert(r@ =~= stem_seq(name@));
        }
        r
    } else {
        name.to_owned()
    }
}

} // verus!

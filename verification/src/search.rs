//! Search filtering: case-insensitive substring matching of entry names,
//! and the projection of an entry sequence to the indices whose names match
//! the active search substring.
//!
//! The filtered view of the explorer is not a second entry list but a list
//! of positions into the unfiltered list; [`filtered_ids`] is its value.

use vstd::prelude::*;
use vstd::string::StrSliceExecFns;

use crate::entry::EntryV;
use crate::entry::FileEntry;
use crate::entry::entries_view;

verus! {

/// An ASCII letter folded to lower case; any other character is unchanged.
pub open spec fn lower_char(c: char) -> char {
    if 65 <= c as u32 && c as u32 <= 90 {
        ((c as u32) + 32) as char
    } else {
        c
    }
}

/// A sequence of characters folded to lower case.
pub open spec fn lower_seq(s: Seq<char>) -> Seq<char> {
    Seq::new(s.len(), |i: int| lower_char(s[i]))
}

/// `nee` occurs in `hay` starting at position `i`.
pub open spec fn matches_at(hay: Seq<char>, nee: Seq<char>, i: int) -> bool {
    &&& 0 <= i
    &&& i + nee.len() <= hay.len()
    &&& forall|j: int| 0 <= j < nee.len() ==> hay[i + j] == nee[j]
}

/// `nee` occurs somewhere in `hay`.
pub open spec fn contains_sub(hay: Seq<char>, nee: Seq<char>) -> bool {
    exists|i: int| matches_at(hay, nee, i)
}

/// A name matches a search filter: no filter matches everything, and a
/// substring filter matches ASCII-case-insensitively — ASCII letters
/// are folded by [`lower_char`], any other character compares exactly.
pub open spec fn name_matches(filter: Option<Seq<char>>, name: Seq<char>) -> bool {
    match filter {
        None => true,
        Some(f) => contains_sub(lower_seq(name), lower_seq(f)),
    }
}

/// The value of an optional search substring.
pub open spec fn filter_view(filter: Option<String>) -> Option<Seq<char>> {
    match filter {
        None => None,
        Some(f) => Some(f@),
    }
}

/// The positions, in increasing order, of the entries whose names match
/// the filter.
pub open spec fn filtered_ids(entries: Seq<EntryV>, filter: Option<Seq<char>>) -> Seq<int>
    decreases entries.len(),
{
    if entries.len() == 0 {
        Seq::empty()
    } else {
        let pre = filtered_ids(entries.drop_last(), filter);
        if name_matches(filter, entries.last().name) {
            pre.push(entries.len() - 1)
        } else {
            pre
        }
    }
}

/// The filtered positions are a strictly increasing sequence of valid
/// positions, every one of them matches, and every matching position is
/// among them.
pub proof fn lemma_filtered_ids_props(entries: Seq<EntryV>, filter: Option<Seq<char>>)
    ensures
        forall|k: int|
            0 <= k < filtered_ids(entries, filter).len() ==> 0 <= #[trigger] filtered_ids(
                entries,
                filter,
            )[k] < entries.len(),
        forall|k1: int, k2: int|
            0 <= k1 < k2 < filtered_ids(entries, filter).len() ==> filtered_ids(entries, filter)[k1]
                < filtered_ids(entries, filter)[k2],
        forall|k: int|
            0 <= k < filtered_ids(entries, filter).len() ==> name_matches(
                filter,
                entries[filtered_ids(entries, filter)[k]].name,
            ),
        forall|j: int|
            0 <= j < entries.len() && name_matches(filter, entries[j].name) ==> filtered_ids(
                entries,
                filter,
            ).contains(j),
    decreases entries.len(),
{
    if entries.len() > 0 {
        let pre = entries.drop_last();
        lemma_filtered_ids_props(pre, filter);
        let fp = filtered_ids(pre, filter);
        let f = filtered_ids(entries, filter);
        assert(forall|k: int| 0 <= k < pre.len() ==> entries[k] == pre[k]);
        if name_matches(filter, entries.last().name) {
            assert(f == fp.push(entries.len() - 1));
            assert forall|j: int|
                0 <= j < entries.len() && name_matches(filter, entries[j].name) implies f.contains(
                j,
            ) by {
                if j == entries.len() - 1 {
                    assert(f[f.len() - 1] == j);
                } else {
                    assert(fp.contains(j));
                    let k = choose|k: int| 0 <= k < fp.len() && fp[k] == j;
                    assert(f[k] == j);
                }
            }
        } else {
            assert(f == fp);
            assert forall|j: int|
                0 <= j < entries.len() && name_matches(filter, entries[j].name) implies f.contains(
                j,
            ) by {
                assert(j != entries.len() - 1);
                assert(fp.contains(j));
            }
        }
    }
}

/// With no filter active, the filtered positions are exactly all positions,
/// in order.
pub proof fn lemma_no_filter_identity(entries: Seq<EntryV>)
    ensures
        filtered_ids(entries, None) =~= Seq::new(entries.len(), |i: int| i),
    decreases entries.len(),
{
    if entries.len() > 0 {
        lemma_no_filter_identity(entries.drop_last());
    }
}

/// An ASCII letter folded to lower case, by [`lower_char`].
fn lower_char_x(c: char) -> (r: char)
    ensures
        r == lower_char(c),
{
    let u = c as u32;
    if 65 <= u && u <= 90 {
        ((c as u8) + 32) as char
    } else {
        c
    }
}

/// The characters of `s` folded to lower case.
fn to_lower_chars(s: &str) -> (v: Vec<char>)
    ensures
        v@ == lower_seq(s@),
{
    let n = s.unicode_len();
    let mut v: Vec<char> = Vec::new();
    let mut i: usize = 0;
    while i < n
        invariant
            i <= n,
            n == s@.len(),
            v@.len() == i,
            forall|k: int| 0 <= k < i ==> v@[k] == lower_char(s@[k]),
        decreases n - i,
    {
        v.push(lower_char_x(s.get_char(i)));
        i += 1;
    }
    proof {
        assert(v@ =~= lower_seq(s@));
    }
    v
}

/// Whether `nee` occurs in `hay`, by [`contains_sub`].
fn chars_contain(hay: &Vec<char>, nee: &Vec<char>) -> (b: bool)
    ensures
        b == contains_sub(hay@, nee@),
{
    let m = nee.len();
    let n = hay.len();
    if m > n {
        assert(!contains_sub(hay@, nee@));
        return false;
    }
    let mut i: usize = 0;
    while i <= n - m
        invariant
            m <= n,
            n == hay@.len(),
            m == nee@.len(),
            i <= n - m + 1,
            forall|k: int| 0 <= k < i ==> !matches_at(hay@, nee@, k),
        decreases n - m + 1 - i,
    {
        let mut j: usize = 0;
        let mut all: bool = true;
        while j < m
            invariant
                m <= n,
                n == hay@.len(),
                m == nee@.len(),
                i + m <= n,
                j <= m,
                all ==> forall|k: int| 0 <= k < j ==> hay@[i + k] == nee@[k],
                !all ==> !matches_at(hay@, nee@, i as int),
            decreases m - j,
        {
            if hay[i + j] != nee[j] {
                assert(!matches_at(hay@, nee@, i as int));
                all = false;
                j = m;
            } else {
                j += 1;
            }
        }
        if all {
            assert(matches_at(hay@, nee@, i as int));
            return true;
        }
        i += 1;
    }
    assert forall|k: int| !matches_at(hay@, nee@, k) by {
        if 0 <= k < i {
        } else if k > n - m {
            assert(!matches_at(hay@, nee@, k));
        }
    }
    false
}

/// Whether an entry name matches the search filter, by [`name_matches`].
pub fn entry_name_matches(filter: &Option<String>, name: &str) -> (b: bool)
    ensures
        b == name_matches(filter_view(*filter), name@),
{
    match filter {
        None => true,
        Some(f) => {
            let hay = to_lower_chars(name);
            let nee = to_lower_chars(f.as_str());
            chars_contain(&hay, &nee)
        },
    }
}

/// The positions of the entries whose names match the filter, by
/// [`filtered_ids`].
pub fn compute_filtered(entries: &Vec<FileEntry>, filter: &Option<String>) -> (v: Vec<usize>)
    ensures
        v@.map_values(|u: usize| u as int) == filtered_ids(
            entries_view(entries@),
            filter_view(*filter),
        ),
{
    let ghost ev = entries_view(entries@);
    let ghost fv = filter_view(*filter);
    let n = entries.len();
    let mut v: Vec<usize> = Vec::new();
    let mut i: usize = 0;
    while i < n
        invariant
            i <= n,
            n == entries@.len(),
            ev == entries_view(entries@),
            fv == filter_view(*filter),
            v@.map_values(|u: usize| u as int) == filtered_ids(ev.take(i as int), fv),
        decreases n - i,
    {
        proof {
            assert(ev.take(i + 1).drop_last() =~= ev.take(i as int));
            assert(ev.take(i + 1).last() == entries@[i as int]@);
        }
        if entry_name_matches(filter, entries[i].name.as_str()) {
            v.push(i);
            proof {
                assert(v@.map_values(|u: usize| u as int) =~= filtered_ids(
                    ev.take(i as int),
                    fv,
                ).push(i as int));
            }
        }
        i += 1;
    }
    proof {
        assert(ev.take(n as int) =~= ev);
    }
    v
}

} // verus!

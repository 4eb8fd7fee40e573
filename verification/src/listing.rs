//! Construction of the unfiltered entry sequence of a directory.
//!
//! A backend hands the explorer a raw batch of entries. The unfiltered
//! sequence shown to the user is built from it in two verified steps:
//! entries hidden from view are dropped (unless hidden files are shown),
//! every kept entry carried unchanged, and a synthetic parent entry `../`
//! is put at position 0 whenever the directory has a parent. Sorting —
//! directories first, then names in ascending order — is provided for
//! backends to present their batches in the documented order.

use vstd::prelude::*;
use vstd::seq_lib::lemma_multiset_commutative;
use vstd::string::StrSliceExecFns;
use vstd::string::StringExecFns;

use crate::entry::EntryV;
use crate::entry::FileEntry;
use crate::entry::entries_view;
use crate::path_ops::parent_of;
use crate::path_ops::parent_seq;

verus! {

/// Lexicographic order on character sequences, by code point; a prefix
/// comes before every extension of it.
pub open spec fn chars_le(a: Seq<char>, b: Seq<char>) -> bool
    decreases a.len(),
{
    if a.len() == 0 {
        true
    } else if b.len() == 0 {
        false
    } else if (a[0] as u32) < (b[0] as u32) {
        true
    } else if (a[0] as u32) > (b[0] as u32) {
        false
    } else {
        chars_le(a.skip(1), b.skip(1))
    }
}

/// The listing order: directories before files, and names ascending
/// within each group.
pub open spec fn entry_le(a: EntryV, b: EntryV) -> bool {
    if a.is_dir != b.is_dir {
        a.is_dir
    } else {
        chars_le(a.name, b.name)
    }
}

/// A sequence sorted by the listing order.
pub open spec fn sorted_entries(s: Seq<EntryV>) -> bool {
    forall|i: int, j: int| 0 <= i < j < s.len() ==> entry_le(s[i], s[j])
}

/// The lexicographic order is total.
pub proof fn lemma_chars_le_total(a: Seq<char>, b: Seq<char>)
    ensures
        chars_le(a, b) || chars_le(b, a),
    decreases a.len(),
{
    if a.len() > 0 && b.len() > 0 && (a[0] as u32) == (b[0] as u32) {
        lemma_chars_le_total(a.skip(1), b.skip(1));
    }
}

/// The lexicographic order is transitive.
pub proof fn lemma_chars_le_trans(a: Seq<char>, b: Seq<char>, c: Seq<char>)
    requires
        chars_le(a, b),
        chars_le(b, c),
    ensures
        chars_le(a, c),
    decreases a.len(),
{
    if a.len() > 0 {
        assert(b.len() > 0);
        assert(c.len() > 0);
        if (a[0] as u32) == (b[0] as u32) && (b[0] as u32) == (c[0] as u32) {
            lemma_chars_le_trans(a.skip(1), b.skip(1), c.skip(1));
        }
    }
}

/// The listing order is total.
pub proof fn lemma_entry_le_total(a: EntryV, b: EntryV)
    ensures
        entry_le(a, b) || entry_le(b, a),
{
    lemma_chars_le_total(a.name, b.name);
}

/// The listing order is transitive.
pub proof fn lemma_entry_le_trans(a: EntryV, b: EntryV, c: EntryV)
    requires
        entry_le(a, b),
        entry_le(b, c),
    ensures
        entry_le(a, c),
{
    if a.is_dir == b.is_dir && b.is_dir == c.is_dir {
        lemma_chars_le_trans(a.name, b.name, c.name);
    }
}

/// Whether `a` comes no later than `b` in the listing order, by
/// [`chars_le`] on the names.
fn name_le(a: &str, b: &str) -> (r: bool)
    ensures
        r == chars_le(a@, b@),
{
    let na = a.unicode_len();
    let nb = b.unicode_len();
    let mut i: usize = 0;
    proof {
        assert(a@.skip(0) =~= a@);
        assert(b@.skip(0) =~= b@);
    }
    loop
        invariant
            i <= na,
            i <= nb,
            na == a@.len(),
            nb == b@.len(),
            chars_le(a@, b@) == chars_le(a@.skip(i as int), b@.skip(i as int)),
        decreases na - i,
    {
        if i == na {
            return true;
        }
        if i == nb {
            assert(!chars_le(a@.skip(i as int), b@.skip(i as int)));
            return false;
        }
        let ca = a.get_char(i) as u32;
        let cb = b.get_char(i) as u32;
        if ca < cb {
            return true;
        }
        if ca > cb {
            return false;
        }
        proof {
            assert(a@.skip(i as int).skip(1) =~= a@.skip(i + 1));
            assert(b@.skip(i as int).skip(1) =~= b@.skip(i + 1));
        }
        i += 1;
    }
}

/// Whether `a` comes no later than `b` in the listing order, by
/// [`entry_le`].
pub fn entry_le_x(a: &FileEntry, b: &FileEntry) -> (r: bool)
    ensures
        r == entry_le(a@, b@),
{
    if a.is_dir != b.is_dir {
        a.is_dir
    } else {
        name_le(a.name.as_str(), b.name.as_str())
    }
}

/// Inserting an element anywhere adds exactly it to the multiset of a
/// sequence.
proof fn lemma_insert_to_multiset<A>(s: Seq<A>, pos: int, x: A)
    requires
        0 <= pos <= s.len(),
    ensures
        s.insert(pos, x).to_multiset() =~= s.to_multiset().insert(x),
{
    broadcast use vstd::seq_lib::group_to_multiset_ensures;

    let u = s.take(pos);
    let w = s.skip(pos);
    assert(s.insert(pos, x) =~= u.push(x) + w);
    lemma_multiset_commutative(u.push(x), w);
    lemma_multiset_commutative(u, w);
    assert(s =~= u + w);
    assert(u.push(x).to_multiset() =~= u.to_multiset().insert(x));
    assert(u.to_multiset().insert(x).add(w.to_multiset()) =~= u.to_multiset().add(
        w.to_multiset(),
    ).insert(x));
}

/// Sorts a batch of entries by the listing order: directories first, then
/// names ascending. The result holds exactly the entries given.
pub fn sort_entries(v: &mut Vec<FileEntry>)
    ensures
        sorted_entries(entries_view(final(v)@)),
        entries_view(final(v)@).to_multiset() == entries_view(old(v)@).to_multiset(),
{
    if v.len() <= 1 {
        return ;
    }
    let mut i: usize = 1;
    while i < v.len()
        invariant
            1 <= i <= v@.len(),
            sorted_entries(entries_view(v@).take(i as int)),
            entries_view(v@).to_multiset() == entries_view(old(v)@).to_multiset(),
        decreases v.len() - i,
    {
        let ghost before = entries_view(v@);
        let n = v.len();
        let e = v.remove(i);
        let ghost ev = e@;
        proof {
            before.to_multiset_ensures();
            assert(entries_view(v@) =~= before.remove(i as int));
            assert(before.remove(i as int).to_multiset() =~= before.to_multiset().remove(ev));
        }
        let mut pos: usize = 0;
        while pos < i && entry_le_x(&v[pos], &e)
            invariant
                pos <= i,
                i < n,
                n == v@.len() + 1,
                ev == e@,
                forall|k: int| 0 <= k < pos ==> entry_le(entries_view(v@)[k], ev),
            decreases i - pos,
        {
            pos += 1;
        }
        let ghost removed = entries_view(v@);
        proof {
            assert(forall|k: int| 0 <= k < i ==> removed[k] == before[k]);
            // every element at or after the insertion point is at least `e`
            assert forall|k: int| pos <= k < i implies entry_le(ev, removed[k]) by {
                lemma_entry_le_total(removed[pos as int], ev);
                if k > pos {
                    assert(entry_le(removed[pos as int], removed[k]));
                    lemma_entry_le_trans(ev, removed[pos as int], removed[k]);
                }
            }
        }
        v.insert(pos, e);
        proof {
            broadcast use vstd::multiset::group_multiset_axioms;

            assert(entries_view(v@) =~= removed.insert(pos as int, ev));
            lemma_insert_to_multiset(removed, pos as int, ev);
            before.to_multiset_ensures();
            assert(before.contains(ev));
            assert(before.to_multiset().count(ev) > 0);
            assert(before.to_multiset().remove(ev).insert(ev) =~= before.to_multiset());
            assert(entries_view(v@).to_multiset() =~= before.to_multiset());
            // the new prefix of length i + 1 is sorted
            let cur = entries_view(v@);
            assert(forall|k: int| 0 <= k < pos ==> cur[k] == removed[k]);
            assert(cur[pos as int] == ev);
            assert(forall|k: int| pos < k <= i ==> cur[k] == removed[k - 1]);
            assert(sorted_entries(cur.take(i + 1)));
        }
        i += 1;
    }
    proof {
        assert(entries_view(v@).take(v@.len() as int) =~= entries_view(v@));
    }
}

/// The entries of a batch that are visible under the hidden-file flag:
/// all of them when hidden files are shown, the non-hidden ones otherwise.
pub open spec fn keep_visible(s: Seq<EntryV>, show_hidden: bool) -> Seq<EntryV>
    decreases s.len(),
{
    if s.len() == 0 {
        Seq::empty()
    } else {
        let pre = keep_visible(s.drop_last(), show_hidden);
        if show_hidden || !s.last().is_hidden {
            pre.push(s.last())
        } else {
            pre
        }
    }
}

/// The synthetic parent entry: named `../`, a directory, never hidden,
/// whose path is the parent directory itself.
pub open spec fn parent_entry(parent: Seq<char>) -> EntryV {
    EntryV {
        name: seq!['.', '.', '/'],
        path: parent,
        is_dir: true,
        is_file: false,
        is_hidden: false,
        size: None,
        modified: None,
        perms: None,
        link_target: None,
    }
}

/// The unfiltered entry sequence for directory `dir`: the visible entries
/// of the batch, carried unchanged, preceded by the synthetic parent
/// entry whenever `dir` has a parent.
pub open spec fn build_listing(listing: Seq<EntryV>, dir: Seq<char>, show_hidden: bool) -> Seq<
    EntryV,
> {
    let vis = keep_visible(listing, show_hidden);
    match parent_seq(dir) {
        None => vis,
        Some(p) => seq![parent_entry(p)] + vis,
    }
}

/// Builds the unfiltered entry sequence, by [`build_listing`].
pub fn build_entries(listing: &Vec<FileEntry>, dir: &str, show_hidden: bool) -> (out: Vec<
    FileEntry,
>)
    ensures
        entries_view(out@) == build_listing(entries_view(listing@), dir@, show_hidden),
{
    let ghost lv = entries_view(listing@);
    let mut out: Vec<FileEntry> = Vec::new();
    let ghost prefix: Seq<EntryV> = match parent_seq(dir@) {
        None => Seq::empty(),
        Some(p) => seq![parent_entry(p)],
    };
    match parent_of(dir) {
        None => {},
        Some(p) => {
            let pe = FileEntry {
                name: String::from_str("../"),
                path: p,
                is_dir: true,
                is_file: false,
                is_hidden: false,
                size: None,
                modified: None,
                perms: None,
                link_target: None,
            };
            proof {
                reveal_strlit("../");
                assert("../"@ =~= seq!['.', '.', '/']);
            }
            out.push(pe);
        },
    }
    proof {
        assert(entries_view(out@) =~= prefix + keep_visible(lv.take(0), show_hidden));
    }
    let n = listing.len();
    let mut i: usize = 0;
    while i < n
        invariant
            i <= n,
            n == listing@.len(),
            lv == entries_view(listing@),
            entries_view(out@) == prefix + keep_visible(lv.take(i as int), show_hidden),
        decreases n - i,
    {
        proof {
            assert(lv.take(i + 1).drop_last() =~= lv.take(i as int));
            assert(lv.take(i + 1).last() == listing@[i as int]@);
        }
        let e = &listing[i];
        if show_hidden || !e.is_hidden {
            let fe = FileEntry::duplicate(e);
            let ghost fev = fe@;
            let ghost out_before = entries_view(out@);
            out.push(fe);
            proof {
                assert(entries_view(out@) =~= out_before.push(fev));
                assert(keep_visible(lv.take(i + 1), show_hidden) == keep_visible(
                    lv.take(i as int),
                    show_hidden,
                ).push(lv[i as int]));
                assert(entries_view(out@) =~= prefix + keep_visible(lv.take(i + 1), show_hidden));
            }
        } else {
            proof {
                assert(keep_visible(lv.take(i + 1), show_hidden) == keep_visible(
                    lv.take(i as int),
                    show_hidden,
                ));
            }
        }
        i += 1;
    }
    proof {
        assert(lv.take(n as int) =~= lv);
    }
    out
}

/// Everything the hidden-file filter keeps comes from the batch, and it
/// keeps the batch's order.
pub proof fn lemma_keep_visible_sorted(s: Seq<EntryV>, show_hidden: bool)
    requires
        sorted_entries(s),
    ensures
        sorted_entries(keep_visible(s, show_hidden)),
        forall|x: EntryV| #[trigger] keep_visible(s, show_hidden).contains(x) ==> s.contains(x),
    decreases s.len(),
{
    if s.len() > 0 {
        let pre = s.drop_last();
        assert(forall|k: int| 0 <= k < pre.len() ==> pre[k] == s[k]);
        assert(sorted_entries(pre));
        lemma_keep_visible_sorted(pre, show_hidden);
        let kp = keep_visible(pre, show_hidden);
        assert forall|x: EntryV| #[trigger] keep_visible(s, show_hidden).contains(
            x,
        ) implies s.contains(x) by {
            let kv = keep_visible(s, show_hidden);
            let k = choose|k: int| 0 <= k < kv.len() && kv[k] == x;
            if k < kp.len() {
                assert(kp.contains(x));
                let j = choose|j: int| 0 <= j < pre.len() && pre[j] == x;
                assert(s[j] == x);
            } else {
                assert(x == s.last());
                assert(s[s.len() - 1] == x);
            }
        }
        if show_hidden || !s.last().is_hidden {
            let kv = kp.push(s.last());
            assert forall|p: int, q: int| 0 <= p < q < kv.len() implies entry_le(
                kv[p],
                kv[q],
            ) by {
                if q == kv.len() - 1 {
                    assert(kp.contains(kv[p]));
                    let j = choose|j: int| 0 <= j < pre.len() && pre[j] == kv[p];
                    assert(entry_le(s[j], s.last()));
                }
            }
        }
    }
}

/// The shape of a freshly built unfiltered sequence when the backend's
/// batch is sorted: the synthetic parent entry, if the directory has a
/// parent, is at position 0, and everything after it is still sorted —
/// directories first, alphabetical within each group.
pub proof fn lemma_build_listing_sorted(listing: Seq<EntryV>, dir: Seq<char>, show_hidden: bool)
    requires
        sorted_entries(listing),
    ensures
        parent_seq(dir) matches Some(p) ==> build_listing(listing, dir, show_hidden)[0]
            == parent_entry(p) && sorted_entries(build_listing(listing, dir, show_hidden).skip(1)),
        parent_seq(dir) is None ==> sorted_entries(build_listing(listing, dir, show_hidden)),
{
    lemma_keep_visible_sorted(listing, show_hidden);
    match parent_seq(dir) {
        None => {},
        Some(p) => {
            let built = build_listing(listing, dir, show_hidden);
            assert(built.skip(1) =~= keep_visible(listing, show_hidden));
        },
    }
}

} // verus!

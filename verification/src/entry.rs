//! One file or directory record, as observed at listing time.

use vstd::prelude::*;
use vstd::string::StrSliceExecFns;
use vstd::string::StringExecFns;

verus! {

/// A file or directory entry.
///
/// Directory names carry a trailing `/`; see [`decorate_name`]. A fresh
/// batch of entries is produced on every directory reload — entries are
/// never mutated in place.
#[derive(Debug, Clone)]
pub struct FileEntry {
    /// The display name (with trailing `/` for directories).
    pub name: String,
    /// The full path of the entry, as the backend reported it. The
    /// explorer navigates to and deletes at exactly this path.
    pub path: String,
    /// Whether this entry is a directory.
    pub is_dir: bool,
    /// Whether this entry is a regular file.
    pub is_file: bool,
    /// Whether this entry is hidden.
    pub is_hidden: bool,
    /// The size of the file in bytes (`None` for directories).
    pub size: Option<u64>,
    /// The last modification time, in seconds since the epoch, if known.
    pub modified: Option<u64>,
    /// The permission bits of the entry, if known.
    pub perms: Option<u32>,
    /// The target a symbolic link points at, if the entry is one.
    pub link_target: Option<String>,
}

/// The mathematical value of a [`FileEntry`].
pub ghost struct EntryV {
    /// The display name.
    pub name: Seq<char>,
    /// The full path.
    pub path: Seq<char>,
    /// Whether the entry is a directory.
    pub is_dir: bool,
    /// Whether the entry is a regular file.
    pub is_file: bool,
    /// Whether the entry is hidden.
    pub is_hidden: bool,
    /// The size in bytes, if any.
    pub size: Option<u64>,
    /// The modification time, if any.
    pub modified: Option<u64>,
    /// The permission bits, if any.
    pub perms: Option<u32>,
    /// The symbolic-link target, if any.
    pub link_target: Option<Seq<char>>,
}

/// The value of an optional string.
pub open spec fn opt_str_view(s: Option<String>) -> Option<Seq<char>> {
    match s {
        None => None,
        Some(s) => Some(s@),
    }
}

impl View for FileEntry {
    type V = EntryV;

    open spec fn view(&self) -> EntryV {
        EntryV {
            name: self.name@,
            path: self.path@,
            is_dir: self.is_dir,
            is_file: self.is_file,
            is_hidden: self.is_hidden,
            size: self.size,
            modified: self.modified,
            perms: self.perms,
            link_target: opt_str_view(self.link_target),
        }
    }
}

/// The values of a batch of entries.
pub open spec fn entries_view(s: Seq<FileEntry>) -> Seq<EntryV> {
    s.map_values(|e: FileEntry| e@)
}

impl FileEntry {
    /// The name of the entry.
    pub fn name(&self) -> (r: &str)
        ensures
            r@ == self@.name,
    {
        self.name.as_str()
    }

    /// The path of the entry.
    pub fn path(&self) -> (r: &str)
        ensures
            r@ == self@.path,
    {
        self.path.as_str()
    }

    /// Whether the entry is a directory.
    pub fn is_dir(&self) -> (r: bool)
        ensures
            r == self@.is_dir,
    {
        self.is_dir
    }

    /// Whether the entry is a regular file.
    pub fn is_file(&self) -> (r: bool)
        ensures
            r == self@.is_file,
    {
        self.is_file
    }

    /// Whether the entry is hidden.
    pub fn is_hidden(&self) -> (r: bool)
        ensures
            r == self@.is_hidden,
    {
        self.is_hidden
    }

    /// An entry equal in value to `e`, freshly constructed.
    pub fn duplicate(e: &FileEntry) -> (r: FileEntry)
        ensures
            r@ == e@,
    {
        FileEntry {
            name: e.name.clone(),
            path: e.path.clone(),
            is_dir: e.is_dir,
            is_file: e.is_file,
            is_hidden: e.is_hidden,
            size: e.size,
            modified: e.modified,
            perms: e.perms,
            link_target: match &e.link_target {
                None => None,
                Some(target) => Some(target.clone()),
            },
        }
    }
}

/// Whether a name denotes a hidden entry: it starts with a dot.
pub open spec fn hidden_name(name: Seq<char>) -> bool {
    name.len() > 0 && name[0] == '.'
}

/// Whether `name` denotes a hidden entry, by [`hidden_name`].
pub fn is_hidden_name(name: &str) -> (r: bool)
    ensures
        r == hidden_name(name@),
{
    let n = name.unicode_len();
    n > 0 && name.get_char(0) == '.'
}

/// Whether two strings hold the same characters.
pub fn str_eq(a: &str, b: &str) -> (r: bool)
    ensures
        r == (a@ == b@),
{
    let na = a.unicode_len();
    let nb = b.unicode_len();
    if na != nb {
        return false;
    }
    let mut i: usize = 0;
    while i < na
        invariant
            i <= na,
            na == a@.len(),
            na == b@.len(),
            forall|k: int| 0 <= k < i ==> a@[k] == b@[k],
        decreases na - i,
    {
        if a.get_char(i) != b.get_char(i) {
            return false;
        }
        i += 1;
    }
    proof {
        assert(a@ =~= b@);
    }
    true
}

/// A raw name decorated for display: directories get a trailing separator.
pub fn decorate_name(name: String, is_dir: bool) -> (r: String)
    ensures
        is_dir ==> r@ == name@ + seq!['/'],
        !is_dir ==> r@ == name@,
{
    if is_dir {
        let r = name.concat("/");
        proof {
            reveal_strlit("/");
            assert("/"@ =~= seq!['/']);
        }
        r
    } else {
        name
    }
}

} // verus!

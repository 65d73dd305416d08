use vstd::prelude::*;

verus! {

/// One entry of a directory, as the walk sees it: a name, the byte size the
/// metadata reported for the entry itself, and, when the entry is a
/// directory, the subtree below it.
pub struct FsEntry {
    pub name: String,
    pub size: u64,
    /// `Some` exactly when the entry is itself a directory.
    pub subtree: Option<Box<FsDir>>,
}

/// A directory as the walk sees it: either its entries can be enumerated,
/// or opening it (or fetching some entry's metadata) fails, in which case
/// the walk learns nothing of what is beneath it.
pub enum FsDir {
    Unreadable,
    Readable { entries: Vec<FsEntry> },
}

/// How many entries a walk of `d` accounts for: every entry of every
/// readable directory, with an unreadable directory contributing nothing.
pub open spec fn walk_count(d: FsDir) -> nat
    decreases d,
{
    match d {
        FsDir::Unreadable => 0,
        FsDir::Readable { entries } => entries@.len() + subtree_count_sum(entries@),
    }
}

/// The walk counts of the subtrees below the directory entries of `s`, summed.
pub open spec fn subtree_count_sum(s: Seq<FsEntry>) -> nat
    decreases s,
{
    if s.len() == 0 {
        0
    } else {
        subtree_count_sum(s.drop_last()) + match s.last().subtree {
            Some(sub) => walk_count(*sub),
            None => 0,
        }
    }
}

/// How many bytes a walk of `d` accounts for: each entry's own reported
/// size plus the bytes below directory entries, with an unreadable
/// directory contributing nothing.
pub open spec fn walk_size(d: FsDir) -> nat
    decreases d,
{
    match d {
        FsDir::Unreadable => 0,
        FsDir::Readable { entries } => own_size_sum(entries@) + subtree_size_sum(entries@),
    }
}

/// The reported sizes of the entries of `s` themselves, summed.
pub open spec fn own_size_sum(s: Seq<FsEntry>) -> nat
    decreases s,
{
    if s.len() == 0 {
        0
    } else {
        own_size_sum(s.drop_last()) + s.last().size as nat
    }
}

/// The walk sizes of the subtrees below the directory entries of `s`, summed.
pub open spec fn subtree_size_sum(s: Seq<FsEntry>) -> nat
    decreases s,
{
    if s.len() == 0 {
        0
    } else {
        subtree_size_sum(s.drop_last()) + match s.last().subtree {
            Some(sub) => walk_size(*sub),
            None => 0,
        }
    }
}

/// Every directory in the tree, the root included, can be read.
pub open spec fn all_readable(d: FsDir) -> bool
    decreases d,
{
    match d {
        FsDir::Unreadable => false,
        FsDir::Readable { entries } => entries_all_readable(entries@),
    }
}

/// Every directory below the entries of `s` can be read.
pub open spec fn entries_all_readable(s: Seq<FsEntry>) -> bool
    decreases s,
{
    if s.len() == 0 {
        true
    } else {
        entries_all_readable(s.drop_last()) && match s.last().subtree {
            Some(sub) => all_readable(*sub),
            None => true,
        }
    }
}

/// Every entry reachable under `d` (the root itself excluded), flattened
/// into one sequence: each readable directory's entries in listing order,
/// each directory entry followed by what is beneath it.
pub open spec fn all_entries(d: FsDir) -> Seq<FsEntry>
    decreases d,
{
    match d {
        FsDir::Unreadable => Seq::empty(),
        FsDir::Readable { entries } => flatten_entries(entries@),
    }
}

/// The entries of `s` with everything beneath them, flattened in order.
pub open spec fn flatten_entries(s: Seq<FsEntry>) -> Seq<FsEntry>
    decreases s,
{
    if s.len() == 0 {
        Seq::empty()
    } else {
        flatten_entries(s.drop_last()) + seq![s.last()] + match s.last().subtree {
            Some(sub) => all_entries(*sub),
            None => Seq::<FsEntry>::empty(),
        }
    }
}

/// The names of the directory entries of `s`, in listing order: the
/// subtrees a walk of a readable directory schedules.
pub open spec fn subdir_name_seq(s: Seq<FsEntry>) -> Seq<Seq<char>>
    decreases s,
{
    if s.len() == 0 {
        Seq::empty()
    } else {
        subdir_name_seq(s.drop_last()) + if s.last().subtree is Some {
            seq![s.last().name@]
        } else {
            Seq::<Seq<char>>::empty()
        }
    }
}

/// The path under which a child entry is reported: the parent's path, a
/// separator, and the entry's name.
pub open spec fn child_path(path: Seq<char>, name: Seq<char>) -> Seq<char> {
    path + seq!['/'] + name
}

/// The diagnostics a walk of `d`, reached under `path`, emits: one path per
/// unreadable directory, in the order the walk discovers them.
pub open spec fn failure_paths(d: FsDir, path: Seq<char>) -> Seq<Seq<char>>
    decreases d,
{
    match d {
        FsDir::Unreadable => seq![path],
        FsDir::Readable { entries } => entries_failure_paths(entries@, path),
    }
}

/// The diagnostics the subtrees below the entries of `s` emit.
pub open spec fn entries_failure_paths(s: Seq<FsEntry>, path: Seq<char>) -> Seq<Seq<char>>
    decreases s,
{
    if s.len() == 0 {
        Seq::empty()
    } else {
        entries_failure_paths(s.drop_last(), path) + match s.last().subtree {
            Some(sub) => failure_paths(*sub, child_path(path, s.last().name@)),
            None => Seq::empty(),
        }
    }
}

} // verus!

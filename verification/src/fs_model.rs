//! An in-memory snapshot of a directory tree, as a single depth-first walk
//! of the real filesystem observed it. The verified walkers run over this
//! model; the program around the library builds it with the host
//! filesystem API and keeps the failure classes apart exactly as listed
//! here.

use vstd::prelude::*;
use vstd::string::StringExecFns;

verus! {

/// One entry of the snapshot.
#[derive(Debug)]
pub enum FsEntry {
    /// An entry whose metadata was read and is not a directory, with its
    /// byte length from that metadata.
    File { name: String, size: usize },
    /// A directory that was opened and listed. When `complete` is false,
    /// listing it failed partway and `entries` holds only what was yielded
    /// before the failure.
    Dir { name: String, entries: Vec<FsEntry>, complete: bool },
    /// A directory (per its metadata) that could not be opened for
    /// listing.
    UnreadableDir { name: String },
    /// An entry whose metadata could not be read; only its name is known.
    UnknownEntry { name: String },
}

/// The name of an entry, as the listing of its parent gave it.
pub open spec fn entry_name(e: FsEntry) -> Seq<char> {
    match e {
        FsEntry::File { name, .. } => name@,
        FsEntry::Dir { name, .. } => name@,
        FsEntry::UnreadableDir { name } => name@,
        FsEntry::UnknownEntry { name } => name@,
    }
}

/// The file whose presence inside a build-cache directory confirms the
/// expected toolchain produced it.
pub open spec fn marker_name() -> Seq<char> {
    ".rustc_info.json"@
}

/// The marker file's name, the executable form of [`marker_name`].
pub fn marker_file_name() -> (r: String)
    ensures
        r@ == marker_name(),
{
    ".rustc_info.json".to_owned()
}

/// Whether the names within one listing are pairwise distinct, as a real
/// directory guarantees.
pub open spec fn distinct_names(s: Seq<FsEntry>) -> bool {
    forall|a: int, b: int|
        0 <= a < b < s.len() ==> entry_name(#[trigger] s[a]) != entry_name(#[trigger] s[b])
}

/// Whether a snapshot entry could come from a real directory tree: every
/// listing reachable from it holds pairwise distinct names.
pub open spec fn wf_entry(e: FsEntry) -> bool
    decreases e, 0int,
{
    match e {
        FsEntry::Dir { name: _, entries, complete: _ } => wf_listing(entries@),
        _ => true,
    }
}

/// [`wf_entry`] for a whole listing: its names are distinct and each of
/// its entries is well formed.
pub open spec fn wf_listing(s: Seq<FsEntry>) -> bool
    decreases s, 1int,
{
    distinct_names(s) && wf_entries(s)
}

/// [`wf_entry`] for each entry of a sequence.
pub open spec fn wf_entries(s: Seq<FsEntry>) -> bool
    decreases s, 0int,
{
    s.len() == 0 || (wf_entry(s[0]) && wf_entries(s.drop_first()))
}

/// A filesystem failure one of the walkers met.
#[derive(Debug, Clone, PartialEq, Eq)]
pub enum WalkError {
    /// The directory at `path` could not be opened for listing.
    Access { path: String },
    /// Listing the already-opened directory at `path` failed partway.
    Enumeration { path: String },
}

/// `prefix` with a separator and `name` appended.
pub open spec fn spec_join_path(prefix: Seq<char>, name: Seq<char>) -> Seq<char> {
    prefix + "/"@ + name
}

/// The executable form of [`spec_join_path`].
pub fn join_path(prefix: &str, name: &str) -> (r: String)
    ensures
        r@ == spec_join_path(prefix@, name@),
{
    let mut s = prefix.to_owned();
    s.append("/");
    s.append(name);
    s
}

/// The display path of a result: the root path with each relative
/// component appended behind a separator.
pub open spec fn path_join(prefix: Seq<char>, rel: Seq<Seq<char>>) -> Seq<char>
    decreases rel.len(),
{
    if rel.len() == 0 {
        prefix
    } else {
        path_join(spec_join_path(prefix, rel[0]), rel.drop_first())
    }
}

/// Walking one level deeper prepends one component to the joined path.
pub proof fn lemma_path_join_step(prefix: Seq<char>, name: Seq<char>, rel: Seq<Seq<char>>)
    ensures
        path_join(prefix, seq![name] + rel) == path_join(spec_join_path(prefix, name), rel),
{
    let whole = seq![name] + rel;
    assert(whole[0] == name);
    assert(whole.drop_first() =~= rel);
}

/// The joined path of a single component.
pub proof fn lemma_path_join_single(prefix: Seq<char>, name: Seq<char>)
    ensures
        path_join(prefix, seq![name]) == spec_join_path(prefix, name),
{
    reveal_with_fuel(path_join, 3);
    assert(seq![name].drop_first() =~= Seq::<Seq<char>>::empty());
}

} // verus!

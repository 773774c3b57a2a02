//! The locator: walks the snapshot top-down and collects the directories
//! whose name matches the configured kind and that pass its validation,
//! never descending into a matched directory.
//!
//! Failures are isolated per branch: an unreadable subdirectory becomes
//! one error entry among the results and its siblings go on; a listing
//! that failed partway contributes the results of the entries yielded
//! before the failure plus one error entry for the affected directory.

use vstd::prelude::*;
use vstd::string::StringExecFns;

use crate::fs_model::{entry_name, join_path, lemma_path_join_single, lemma_path_join_step, marker_name, path_join, spec_join_path, wf_entries, wf_entry, wf_listing, FsEntry, WalkError};
use crate::fs_model::marker_file_name;
use crate::params::{spec_folder_name, spec_requires_marker, FolderNameEnum};

verus! {

/// One result of the locator, in the mathematical model: a located
/// directory or a failure, at a path relative to the walk's root, given
/// as the sequence of directory names leading to it.
pub ghost enum LocItem {
    /// A directory of the configured kind was located here.
    Found { rel: Seq<Seq<char>> },
    /// The directory here could not be opened for listing.
    Access { rel: Seq<Seq<char>> },
    /// Listing the directory here failed partway.
    Enumeration { rel: Seq<Seq<char>> },
}

/// The relative path of a locator result.
pub open spec fn item_rel(it: LocItem) -> Seq<Seq<char>> {
    match it {
        LocItem::Found { rel } => rel,
        LocItem::Access { rel } => rel,
        LocItem::Enumeration { rel } => rel,
    }
}

/// The same result, one directory level deeper.
pub open spec fn with_parent(name: Seq<char>, it: LocItem) -> LocItem {
    match it {
        LocItem::Found { rel } => LocItem::Found { rel: seq![name] + rel },
        LocItem::Access { rel } => LocItem::Access { rel: seq![name] + rel },
        LocItem::Enumeration { rel } => LocItem::Enumeration { rel: seq![name] + rel },
    }
}

/// Every result of a walk below the child directory `name`, seen from its
/// parent.
pub open spec fn with_parent_all(name: Seq<char>, items: Seq<LocItem>) -> Seq<LocItem> {
    items.map_values(|it: LocItem| with_parent(name, it))
}

/// Whether a listing holds an entry named like the marker file.
pub open spec fn has_marker(entries: Seq<FsEntry>) -> bool {
    exists|i: int| 0 <= i < entries.len() && entry_name(entries[i]) == marker_name()
}

/// Whether a name-matching directory is a genuine match of the kind: for
/// a kind that requires the marker, the entry must be a listed directory
/// holding an entry named like the marker file; other kinds accept every
/// name match.
pub open spec fn spec_is_valid_target(e: FsEntry, kind: FolderNameEnum) -> bool {
    if spec_requires_marker(kind) {
        e matches FsEntry::Dir { entries, .. } && has_marker(entries@)
    } else {
        true
    }
}

/// The locator's results for one child entry of a directory being walked:
/// a name-matching directory is reported when valid and never entered;
/// any other directory is walked recursively when listed, and reported as
/// an access failure when unreadable; non-directory entries yield nothing.
pub open spec fn locate_child(e: FsEntry, kind: FolderNameEnum) -> Seq<LocItem>
    decreases e, 0int,
{
    match e {
        FsEntry::Dir { name, entries, complete } => {
            if name@ == spec_folder_name(kind) {
                if spec_is_valid_target(e, kind) {
                    seq![LocItem::Found { rel: seq![name@] }]
                } else {
                    Seq::empty()
                }
            } else {
                with_parent_all(name@, locate_listing(entries@, complete, kind))
            }
        },
        FsEntry::UnreadableDir { name } => {
            if name@ == spec_folder_name(kind) {
                if spec_is_valid_target(e, kind) {
                    seq![LocItem::Found { rel: seq![name@] }]
                } else {
                    Seq::empty()
                }
            } else {
                seq![LocItem::Access { rel: seq![name@] }]
            }
        },
        _ => Seq::empty(),
    }
}

/// The locator's results over a sequence of child entries, in listing
/// order.
pub open spec fn locate_entries(s: Seq<FsEntry>, kind: FolderNameEnum) -> Seq<LocItem>
    decreases s, 0int,
{
    if s.len() == 0 {
        Seq::empty()
    } else {
        locate_child(s[0], kind) + locate_entries(s.drop_first(), kind)
    }
}

/// The locator's results for one opened directory: the results of its
/// listed entries, plus one enumeration failure for the directory itself
/// when its listing was cut short.
pub open spec fn locate_listing(s: Seq<FsEntry>, complete: bool, kind: FolderNameEnum) -> Seq<
    LocItem,
>
    decreases s, 1int,
{
    locate_entries(s, kind) + if complete {
        Seq::empty()
    } else {
        seq![LocItem::Enumeration { rel: Seq::empty() }]
    }
}

/// The locator's results for the root of the scan: the walk of its
/// listing when it could be opened, and a single access failure
/// otherwise. The root itself is never a match.
pub open spec fn locate_root(root: FsEntry, kind: FolderNameEnum) -> Seq<LocItem> {
    match root {
        FsEntry::Dir { name: _, entries, complete } => locate_listing(entries@, complete, kind),
        _ => seq![LocItem::Access { rel: Seq::empty() }],
    }
}

/// How one executable result renders one model result: a located
/// directory becomes its display path, and each failure becomes the
/// matching error with the affected directory's display path.
pub open spec fn item_matches(
    prefix: Seq<char>,
    it: LocItem,
    res: Result<String, WalkError>,
) -> bool {
    match it {
        LocItem::Found { rel } => res matches Ok(s) && s@ == path_join(prefix, rel),
        LocItem::Access { rel } => res matches Err(e) && e matches WalkError::Access { path }
            && path@ == path_join(prefix, rel),
        LocItem::Enumeration { rel } => res matches Err(e) && e matches WalkError::Enumeration {
            path,
        } && path@ == path_join(prefix, rel),
    }
}

/// Rendering below a child directory equals rendering the re-rooted
/// result from its parent.
pub proof fn lemma_with_parent_matches(
    prefix: Seq<char>,
    name: Seq<char>,
    it: LocItem,
    res: Result<String, WalkError>,
)
    ensures
        item_matches(spec_join_path(prefix, name), it, res) == item_matches(
            prefix,
            with_parent(name, it),
            res,
        ),
{
    lemma_path_join_step(prefix, name, item_rel(it));
}

/// Appending one entry appends its results.
pub proof fn lemma_locate_entries_push(s: Seq<FsEntry>, x: FsEntry, kind: FolderNameEnum)
    ensures
        locate_entries(s.push(x), kind) == locate_entries(s, kind) + locate_child(x, kind),
    decreases s.len(),
{
    reveal_with_fuel(locate_entries, 3);
    if s.len() == 0 {
        assert(s.push(x)[0] == x);
        assert(s.push(x).drop_first() =~= Seq::<FsEntry>::empty());
        assert(locate_entries(s.push(x), kind) =~= locate_entries(s, kind) + locate_child(
            x,
            kind,
        ));
    } else {
        assert(s.push(x)[0] == s[0]);
        assert(s.push(x).drop_first() =~= s.drop_first().push(x));
        lemma_locate_entries_push(s.drop_first(), x, kind);
        assert(locate_child(s[0], kind) + (locate_entries(s.drop_first(), kind) + locate_child(
            x,
            kind,
        )) =~= (locate_child(s[0], kind) + locate_entries(s.drop_first(), kind)) + locate_child(
            x,
            kind,
        ));
    }
}

/// Whether one relative path lies strictly below another: `p` is a
/// proper leading part of `q`.
pub open spec fn is_strict_path_prefix(p: Seq<Seq<char>>, q: Seq<Seq<char>>) -> bool {
    p.len() < q.len() && q.take(p.len() as int) == p
}

/// The shape every located path has: it is nonempty, it ends in the
/// kind's directory name, and no earlier component is that name (the
/// walk never descends into a name match).
pub open spec fn found_shape(rel: Seq<Seq<char>>, target: Seq<char>) -> bool {
    &&& rel.len() >= 1
    &&& rel.last() == target
    &&& forall|k: int| 0 <= k < rel.len() - 1 ==> rel[k] != target
}

/// [`found_shape`] for one result, when it is a located directory.
pub open spec fn is_found_shaped(it: LocItem, target: Seq<char>) -> bool {
    it matches LocItem::Found { rel } ==> found_shape(rel, target)
}

/// Every located directory among one child entry's results has the
/// shape of [`found_shape`].
pub proof fn lemma_child_found_shape(e: FsEntry, kind: FolderNameEnum)
    ensures
        forall|j: int|
            0 <= j < locate_child(e, kind).len() ==> is_found_shaped(
                #[trigger] locate_child(e, kind)[j],
                spec_folder_name(kind),
            ),
    decreases e, 1int,
{
    let target = spec_folder_name(kind);
    match e {
        FsEntry::Dir { name, entries, complete } => {
            if name@ == target {
                assert forall|j: int| 0 <= j < locate_child(e, kind).len() implies is_found_shaped(
                    #[trigger] locate_child(e, kind)[j],
                    target,
                ) by {
                    assert(locate_child(e, kind)[j] == (LocItem::Found { rel: seq![name@] }));
                    assert(seq![name@].last() == name@);
                }
            } else {
                lemma_entries_found_shape(entries@, kind);
                let items = locate_listing(entries@, complete, kind);
                assert forall|j: int| 0 <= j < locate_child(e, kind).len() implies is_found_shaped(
                    #[trigger] locate_child(e, kind)[j],
                    target,
                ) by {
                    assert(locate_child(e, kind)[j] == with_parent(name@, items[j]));
                    if items[j] is Found {
                        let rel = item_rel(items[j]);
                        assert(0 <= j < locate_entries(entries@, kind).len());
                        assert(is_found_shaped(items[j], target));
                        let whole = seq![name@] + rel;
                        assert(whole.last() == rel.last());
                        assert forall|k: int| 0 <= k < whole.len() - 1 implies whole[k]
                            != target by {
                            if k == 0 {
                            } else {
                                assert(whole[k] == rel[k - 1]);
                            }
                        }
                    }
                }
            }
        },
        FsEntry::UnreadableDir { name } => {
            if name@ == target {
                assert forall|j: int| 0 <= j < locate_child(e, kind).len() implies is_found_shaped(
                    #[trigger] locate_child(e, kind)[j],
                    target,
                ) by {
                    assert(locate_child(e, kind)[j] == (LocItem::Found { rel: seq![name@] }));
                    assert(seq![name@].last() == name@);
                }
            }
        },
        _ => {},
    }
}

/// [`lemma_child_found_shape`] over a sequence of child entries.
pub proof fn lemma_entries_found_shape(s: Seq<FsEntry>, kind: FolderNameEnum)
    ensures
        forall|j: int|
            0 <= j < locate_entries(s, kind).len() ==> is_found_shaped(
                #[trigger] locate_entries(s, kind)[j],
                spec_folder_name(kind),
            ),
    decreases s, 0int,
{
    if s.len() > 0 {
        lemma_child_found_shape(s[0], kind);
        lemma_entries_found_shape(s.drop_first(), kind);
        assert forall|j: int| 0 <= j < locate_entries(s, kind).len() implies is_found_shaped(
            #[trigger] locate_entries(s, kind)[j],
            spec_folder_name(kind),
        ) by {
            let head = locate_child(s[0], kind);
            if j < head.len() {
                assert(locate_entries(s, kind)[j] == head[j]);
            } else {
                assert(locate_entries(s, kind)[j] == locate_entries(s.drop_first(), kind)[j
                    - head.len()]);
            }
        }
    }
}

/// Every located directory among a whole scan's results has the shape
/// of [`found_shape`].
pub proof fn lemma_root_found_shape(root: FsEntry, kind: FolderNameEnum)
    ensures
        forall|j: int|
            0 <= j < locate_root(root, kind).len() ==> is_found_shaped(
                #[trigger] locate_root(root, kind)[j],
                spec_folder_name(kind),
            ),
{
    match root {
        FsEntry::Dir { name: _, entries, complete } => {
            lemma_entries_found_shape(entries@, kind);
            assert forall|j: int| 0 <= j < locate_root(root, kind).len() implies is_found_shaped(
                #[trigger] locate_root(root, kind)[j],
                spec_folder_name(kind),
            ) by {
                if j < locate_entries(entries@, kind).len() {
                    assert(locate_root(root, kind)[j] == locate_entries(entries@, kind)[j]);
                }
            }
        },
        _ => {},
    }
}

/// No located directory lies below another located directory: the walk
/// stops at a match, so of any two located paths neither is a proper
/// leading part of the other.
pub proof fn lemma_located_not_nested(root: FsEntry, kind: FolderNameEnum)
    ensures
        forall|a: int, b: int|
            {
                &&& 0 <= a < locate_root(root, kind).len()
                &&& 0 <= b < locate_root(root, kind).len()
                &&& #[trigger] locate_root(root, kind)[a] is Found
                &&& #[trigger] locate_root(root, kind)[b] is Found
            } ==> !is_strict_path_prefix(
                item_rel(locate_root(root, kind)[a]),
                item_rel(locate_root(root, kind)[b]),
            ),
{
    let target = spec_folder_name(kind);
    lemma_root_found_shape(root, kind);
    assert forall|a: int, b: int|
        {
            &&& 0 <= a < locate_root(root, kind).len()
            &&& 0 <= b < locate_root(root, kind).len()
            &&& #[trigger] locate_root(root, kind)[a] is Found
            &&& #[trigger] locate_root(root, kind)[b] is Found
        } implies !is_strict_path_prefix(
        item_rel(locate_root(root, kind)[a]),
        item_rel(locate_root(root, kind)[b]),
    ) by {
        let p = item_rel(locate_root(root, kind)[a]);
        let q = item_rel(locate_root(root, kind)[b]);
        assert(found_shape(p, target));
        assert(found_shape(q, target));
        if is_strict_path_prefix(p, q) {
            assert(q.take(p.len() as int)[p.len() - 1] == q[p.len() - 1]);
            assert(q[p.len() - 1] == target);
            assert(p.len() - 1 < q.len() - 1);
        }
    }
}

/// Whether the index path `p` leads from the child entry `e` to a
/// directory the walk matches: descending only through listed
/// directories not named like the kind, it ends at a directory that is
/// named like the kind and passes its validation.
pub open spec fn is_match_at(e: FsEntry, kind: FolderNameEnum, p: Seq<int>) -> bool
    decreases p.len(),
{
    if p.len() == 0 {
        &&& e is Dir || e is UnreadableDir
        &&& entry_name(e) == spec_folder_name(kind)
        &&& spec_is_valid_target(e, kind)
    } else {
        &&& e is Dir
        &&& entry_name(e) != spec_folder_name(kind)
        &&& 0 <= p[0] < e->Dir_entries@.len()
        &&& is_match_at(e->Dir_entries@[p[0]], kind, p.drop_first())
    }
}

/// The names along the index path `p` from the child entry `e`, the
/// entry's own name included.
pub open spec fn match_rel(e: FsEntry, p: Seq<int>) -> Seq<Seq<char>>
    decreases p.len(),
{
    if p.len() == 0 {
        seq![entry_name(e)]
    } else {
        seq![entry_name(e)] + match_rel(e->Dir_entries@[p[0]], p.drop_first())
    }
}

/// Whether the index path `p` leads from the scan's root to a directory
/// the walk matches. The root's own listing is always walked, so `p`
/// starts below the root.
pub open spec fn is_root_match(root: FsEntry, kind: FolderNameEnum, p: Seq<int>) -> bool {
    &&& root is Dir
    &&& p.len() >= 1
    &&& 0 <= p[0] < root->Dir_entries@.len()
    &&& is_match_at(root->Dir_entries@[p[0]], kind, p.drop_first())
}

/// The names along the index path `p` from the scan's root.
pub open spec fn root_match_rel(root: FsEntry, p: Seq<int>) -> Seq<Seq<char>> {
    match_rel(root->Dir_entries@[p[0]], p.drop_first())
}

/// An item of one child's results is an item of the whole sequence's
/// results.
proof fn lemma_entries_contains_child(s: Seq<FsEntry>, kind: FolderNameEnum, i: int, it: LocItem)
    requires
        0 <= i < s.len(),
        locate_child(s[i], kind).contains(it),
    ensures
        locate_entries(s, kind).contains(it),
    decreases s.len(),
{
    let whole = locate_entries(s, kind);
    let head = locate_child(s[0], kind);
    if i == 0 {
        let j = choose|j: int| 0 <= j < head.len() && head[j] == it;
        assert(whole[j] == it);
    } else {
        lemma_entries_contains_child(s.drop_first(), kind, i - 1, it);
        let rest = locate_entries(s.drop_first(), kind);
        let j = choose|j: int| 0 <= j < rest.len() && rest[j] == it;
        assert(whole[head.len() + j] == it);
    }
}

/// Every item of a sequence's results is an item of one child's results.
proof fn lemma_entries_item_from_child(s: Seq<FsEntry>, kind: FolderNameEnum, j: int) -> (w: (
    int,
    int,
))
    requires
        0 <= j < locate_entries(s, kind).len(),
    ensures
        0 <= w.0 < s.len(),
        0 <= w.1 < locate_child(s[w.0], kind).len(),
        locate_entries(s, kind)[j] == locate_child(s[w.0], kind)[w.1],
    decreases s.len(),
{
    let head = locate_child(s[0], kind);
    if j < head.len() {
        (0, j)
    } else {
        let w = lemma_entries_item_from_child(s.drop_first(), kind, j - head.len());
        (w.0 + 1, w.1)
    }
}

/// Completeness of the locator at one child entry: the walk reports
/// every directory an index path matches at.
proof fn lemma_child_complete(e: FsEntry, kind: FolderNameEnum, p: Seq<int>)
    requires
        is_match_at(e, kind, p),
    ensures
        locate_child(e, kind).contains(LocItem::Found { rel: match_rel(e, p) }),
    decreases p.len(),
{
    if p.len() == 0 {
        assert(locate_child(e, kind)[0] == (LocItem::Found { rel: match_rel(e, p) }));
    } else {
        let entries = e->Dir_entries@;
        let child = entries[p[0]];
        let complete = e->Dir_complete;
        let name = entry_name(e);
        lemma_child_complete(child, kind, p.drop_first());
        lemma_entries_contains_child(entries, kind, p[0], LocItem::Found {
            rel: match_rel(child, p.drop_first()),
        });
        let listing = locate_listing(entries, complete, kind);
        let inner = locate_entries(entries, kind);
        let it = LocItem::Found { rel: match_rel(child, p.drop_first()) };
        let j = choose|j: int| 0 <= j < inner.len() && inner[j] == it;
        assert(listing[j] == it);
        assert(locate_child(e, kind)[j] == with_parent(name, it));
        assert(seq![name] + match_rel(child, p.drop_first()) == match_rel(e, p));
        assert(locate_child(e, kind)[j] == (LocItem::Found { rel: match_rel(e, p) }));
    }
}

/// Soundness of the locator at one child entry: every directory the
/// walk reports is matched at some index path.
proof fn lemma_child_sound(e: FsEntry, kind: FolderNameEnum, j: int) -> (p: Seq<int>)
    requires
        0 <= j < locate_child(e, kind).len(),
        locate_child(e, kind)[j] is Found,
    ensures
        is_match_at(e, kind, p),
        item_rel(locate_child(e, kind)[j]) == match_rel(e, p),
    decreases e,
{
    let target = spec_folder_name(kind);
    match e {
        FsEntry::Dir { name, entries, complete } => {
            if name@ == target {
                assert(is_match_at(e, kind, Seq::<int>::empty()));
                Seq::<int>::empty()
            } else {
                let listing = locate_listing(entries@, complete, kind);
                let inner = locate_entries(entries@, kind);
                assert(locate_child(e, kind)[j] == with_parent(name@, listing[j]));
                assert(listing[j] is Found);
                assert(j < inner.len() && listing[j] == inner[j]) by {
                    if j >= inner.len() {
                        assert(listing[j] == (LocItem::Enumeration { rel: Seq::empty() }));
                    }
                }
                let w = lemma_entries_item_from_child(entries@, kind, j);
                let child = entries@[w.0];
                assert(decreases_to!(e => e->Dir_entries));
                assert(decreases_to!(e->Dir_entries => e->Dir_entries@));
                assert(decreases_to!(e->Dir_entries@ => e->Dir_entries@[w.0]));
                assert(decreases_to!(e => child));
                let sub = lemma_child_sound(child, kind, w.1);
                let p = seq![w.0] + sub;
                assert(p.drop_first() =~= sub);
                assert(is_match_at(e, kind, p));
                assert(item_rel(locate_child(e, kind)[j]) == seq![name@] + item_rel(inner[j]));
                assert(match_rel(e, p) == seq![name@] + match_rel(child, sub));
                p
            }
        },
        FsEntry::UnreadableDir { name } => {
            assert(name@ == target);
            assert(is_match_at(e, kind, Seq::<int>::empty()));
            Seq::<int>::empty()
        },
        _ => {
            assert(false);
            Seq::<int>::empty()
        },
    }
}

/// The scan's located directories are exactly the reachable matches: a
/// directory is reported if and only if some index path matches at it,
/// and the reported path is the names along that index path.
pub proof fn lemma_locate_exactly_matches(root: FsEntry, kind: FolderNameEnum)
    ensures
        forall|p: Seq<int>|
            is_root_match(root, kind, p) ==> locate_root(root, kind).contains(
                LocItem::Found { rel: root_match_rel(root, p) },
            ),
        forall|j: int|
            0 <= j < locate_root(root, kind).len() && #[trigger] locate_root(root, kind)[j]
                is Found ==> exists|p: Seq<int>|
                is_root_match(root, kind, p) && item_rel(locate_root(root, kind)[j])
                    == root_match_rel(root, p),
{
    let items = locate_root(root, kind);
    assert forall|p: Seq<int>| is_root_match(root, kind, p) implies locate_root(
        root,
        kind,
    ).contains(LocItem::Found { rel: root_match_rel(root, p) }) by {
        let entries = root->Dir_entries@;
        let child = entries[p[0]];
        lemma_child_complete(child, kind, p.drop_first());
        let it = LocItem::Found { rel: root_match_rel(root, p) };
        lemma_entries_contains_child(entries, kind, p[0], it);
        let inner = locate_entries(entries, kind);
        let j = choose|j: int| 0 <= j < inner.len() && inner[j] == it;
        assert(items[j] == it);
    }
    assert forall|j: int|
        0 <= j < items.len() && #[trigger] items[j] is Found implies exists|p: Seq<int>|
        is_root_match(root, kind, p) && item_rel(items[j]) == root_match_rel(root, p) by {
        match root {
            FsEntry::Dir { name: _, entries, complete } => {
                let inner = locate_entries(entries@, kind);
                assert(j < inner.len() && items[j] == inner[j]) by {
                    if j >= inner.len() {
                        assert(items[j] == (LocItem::Enumeration { rel: Seq::empty() }));
                    }
                }
                let w = lemma_entries_item_from_child(entries@, kind, j);
                let sub = lemma_child_sound(entries@[w.0], kind, w.1);
                let p = seq![w.0] + sub;
                assert(p.drop_first() =~= sub);
                assert(is_root_match(root, kind, p));
                assert(item_rel(items[j]) == root_match_rel(root, p));
            },
            _ => {
                assert(items[j] == (LocItem::Access { rel: Seq::empty() }));
            },
        }
    }
}

/// Every located directory among one child entry's results lies below
/// that entry: its path starts with the entry's own name.
proof fn lemma_child_first_component(e: FsEntry, kind: FolderNameEnum)
    ensures
        forall|j: int|
            0 <= j < locate_child(e, kind).len() && #[trigger] locate_child(e, kind)[j]
                is Found ==> {
                &&& item_rel(locate_child(e, kind)[j]).len() >= 1
                &&& item_rel(locate_child(e, kind)[j])[0] == entry_name(e)
            },
{
    let items = locate_child(e, kind);
    assert forall|j: int| 0 <= j < items.len() && #[trigger] items[j] is Found implies {
        &&& item_rel(items[j]).len() >= 1
        &&& item_rel(items[j])[0] == entry_name(e)
    } by {
        match e {
            FsEntry::Dir { name, entries, complete } => {
                if name@ != spec_folder_name(kind) {
                    let listing = locate_listing(entries@, complete, kind);
                    assert(items[j] == with_parent(name@, listing[j]));
                }
            },
            _ => {},
        }
    }
}

/// Every located directory among a sequence's results lies below one of
/// its entries.
proof fn lemma_entries_first_component(s: Seq<FsEntry>, kind: FolderNameEnum)
    ensures
        forall|k: int|
            0 <= k < locate_entries(s, kind).len() && #[trigger] locate_entries(s, kind)[k]
                is Found ==> exists|j: int|
                {
                    &&& 0 <= j < s.len()
                    &&& item_rel(locate_entries(s, kind)[k]).len() >= 1
                    &&& item_rel(locate_entries(s, kind)[k])[0] == entry_name(s[j])
                },
    decreases s.len(),
{
    let items = locate_entries(s, kind);
    if s.len() > 0 {
        lemma_child_first_component(s[0], kind);
        lemma_entries_first_component(s.drop_first(), kind);
        let head = locate_child(s[0], kind);
        let rest = locate_entries(s.drop_first(), kind);
        assert forall|k: int| 0 <= k < items.len() && #[trigger] items[k] is Found implies exists|
            j: int,
        |
            {
                &&& 0 <= j < s.len()
                &&& item_rel(items[k]).len() >= 1
                &&& item_rel(items[k])[0] == entry_name(s[j])
            } by {
            if k < head.len() {
                assert(items[k] == head[k]);
                assert(0 <= 0 < s.len() && item_rel(items[k]).len() >= 1 && item_rel(items[k])[0]
                    == entry_name(s[0]));
            } else {
                assert(items[k] == rest[k - head.len()]);
                let j = choose|j: int|
                    {
                        &&& 0 <= j < s.drop_first().len()
                        &&& item_rel(rest[k - head.len()]).len() >= 1
                        &&& item_rel(rest[k - head.len()])[0] == entry_name(s.drop_first()[j])
                    };
                assert(s.drop_first()[j] == s[j + 1]);
                assert(0 <= j + 1 < s.len() && item_rel(items[k]).len() >= 1 && item_rel(
                    items[k],
                )[0] == entry_name(s[j + 1]));
            }
        }
    }
}

/// Within one child entry's results, no located directory is reported
/// twice.
proof fn lemma_child_found_distinct(e: FsEntry, kind: FolderNameEnum)
    requires
        wf_entry(e),
    ensures
        forall|a: int, b: int|
            {
                &&& 0 <= a < b < locate_child(e, kind).len()
                &&& #[trigger] locate_child(e, kind)[a] is Found
                &&& #[trigger] locate_child(e, kind)[b] is Found
            } ==> item_rel(locate_child(e, kind)[a]) != item_rel(locate_child(e, kind)[b]),
    decreases e, 1int,
{
    let items = locate_child(e, kind);
    match e {
        FsEntry::Dir { name, entries, complete } => {
            if name@ != spec_folder_name(kind) {
                lemma_entries_found_distinct(entries@, kind);
                let listing = locate_listing(entries@, complete, kind);
                let inner = locate_entries(entries@, kind);
                assert forall|a: int, b: int|
                    {
                        &&& 0 <= a < b < items.len()
                        &&& #[trigger] items[a] is Found
                        &&& #[trigger] items[b] is Found
                    } implies item_rel(items[a]) != item_rel(items[b]) by {
                    assert(items[a] == with_parent(name@, listing[a]));
                    assert(items[b] == with_parent(name@, listing[b]));
                    assert(b < inner.len()) by {
                        if b >= inner.len() {
                            assert(listing[b] == (LocItem::Enumeration { rel: Seq::empty() }));
                        }
                    }
                    assert(listing[a] == inner[a] && listing[b] == inner[b]);
                    assert(item_rel(inner[a]) != item_rel(inner[b]));
                    assert(item_rel(items[a]) == seq![name@] + item_rel(inner[a]));
                    assert(item_rel(items[b]) == seq![name@] + item_rel(inner[b]));
                    if item_rel(items[a]) == item_rel(items[b]) {
                        assert(item_rel(inner[a]) =~= item_rel(inner[b])) by {
                            let ra = item_rel(inner[a]);
                            let rb = item_rel(inner[b]);
                            assert(ra.len() == rb.len());
                            assert forall|x: int| 0 <= x < ra.len() implies ra[x] == rb[x] by {
                                assert((seq![name@] + ra)[x + 1] == ra[x]);
                                assert((seq![name@] + rb)[x + 1] == rb[x]);
                            }
                        }
                    }
                }
            }
        },
        _ => {},
    }
}

/// Within a sequence's results, no located directory is reported twice:
/// results below different siblings start with different names, and
/// within one sibling they are distinct.
proof fn lemma_entries_found_distinct(s: Seq<FsEntry>, kind: FolderNameEnum)
    requires
        wf_listing(s),
    ensures
        forall|a: int, b: int|
            {
                &&& 0 <= a < b < locate_entries(s, kind).len()
                &&& #[trigger] locate_entries(s, kind)[a] is Found
                &&& #[trigger] locate_entries(s, kind)[b] is Found
            } ==> item_rel(locate_entries(s, kind)[a]) != item_rel(locate_entries(s, kind)[b]),
    decreases s, 0int,
{
    let items = locate_entries(s, kind);
    if s.len() > 0 {
        assert(wf_entry(s[0]));
        assert(wf_listing(s.drop_first())) by {
            assert(wf_entries(s.drop_first()));
            assert forall|a: int, b: int| 0 <= a < b < s.drop_first().len() implies entry_name(
                #[trigger] s.drop_first()[a],
            ) != entry_name(#[trigger] s.drop_first()[b]) by {
                assert(s.drop_first()[a] == s[a + 1] && s.drop_first()[b] == s[b + 1]);
            }
        }
        lemma_child_found_distinct(s[0], kind);
        lemma_entries_found_distinct(s.drop_first(), kind);
        lemma_child_first_component(s[0], kind);
        lemma_entries_first_component(s.drop_first(), kind);
        let head = locate_child(s[0], kind);
        let rest = locate_entries(s.drop_first(), kind);
        assert forall|a: int, b: int|
            {
                &&& 0 <= a < b < items.len()
                &&& #[trigger] items[a] is Found
                &&& #[trigger] items[b] is Found
            } implies item_rel(items[a]) != item_rel(items[b]) by {
            if b < head.len() {
                assert(items[a] == head[a] && items[b] == head[b]);
            } else if a >= head.len() {
                assert(items[a] == rest[a - head.len()] && items[b] == rest[b - head.len()]);
            } else {
                assert(items[a] == head[a] && items[b] == rest[b - head.len()]);
                assert(item_rel(items[a])[0] == entry_name(s[0]));
                let j = choose|j: int|
                    {
                        &&& 0 <= j < s.drop_first().len()
                        &&& item_rel(rest[b - head.len()]).len() >= 1
                        &&& item_rel(rest[b - head.len()])[0] == entry_name(s.drop_first()[j])
                    };
                assert(s.drop_first()[j] == s[j + 1]);
                assert(entry_name(s[0]) != entry_name(s[j + 1]));
            }
        }
    }
}

/// No located directory is reported twice by a whole scan whose snapshot
/// is well formed (a real directory tree: names within one listing are
/// distinct). Together with [`lemma_locate_exactly_matches`], the scan's
/// located paths are exactly the reachable matches, each reported once.
pub proof fn lemma_locate_found_once(root: FsEntry, kind: FolderNameEnum)
    requires
        wf_entry(root),
    ensures
        forall|a: int, b: int|
            {
                &&& 0 <= a < b < locate_root(root, kind).len()
                &&& #[trigger] locate_root(root, kind)[a] is Found
                &&& #[trigger] locate_root(root, kind)[b] is Found
            } ==> item_rel(locate_root(root, kind)[a]) != item_rel(locate_root(root, kind)[b]),
{
    let items = locate_root(root, kind);
    match root {
        FsEntry::Dir { name: _, entries, complete } => {
            lemma_entries_found_distinct(entries@, kind);
            let inner = locate_entries(entries@, kind);
            assert forall|a: int, b: int|
                {
                    &&& 0 <= a < b < items.len()
                    &&& #[trigger] items[a] is Found
                    &&& #[trigger] items[b] is Found
                } implies item_rel(items[a]) != item_rel(items[b]) by {
                assert(b < inner.len()) by {
                    if b >= inner.len() {
                        assert(items[b] == (LocItem::Enumeration { rel: Seq::empty() }));
                    }
                }
                assert(items[a] == inner[a] && items[b] == inner[b]);
            }
        },
        _ => {},
    }
}

/// A directory whose name matches the kind but that fails the kind's
/// validation yields nothing at all: it is neither located nor entered.
pub proof fn lemma_invalid_target_not_located(e: FsEntry, kind: FolderNameEnum)
    requires
        entry_name(e) == spec_folder_name(kind),
        !spec_is_valid_target(e, kind),
    ensures
        locate_child(e, kind) == Seq::<LocItem>::empty(),
{
}

/// Whether this entry is a genuine match of the kind, were its name to
/// match; the executable form of [`spec_is_valid_target`]. For a kind
/// requiring the marker this scans the entry's listing for the marker
/// file's name.
pub fn is_valid_target(entry: &FsEntry, folder_name: &FolderNameEnum) -> (r: bool)
    ensures
        r == spec_is_valid_target(*entry, *folder_name),
{
    if !folder_name.requires_marker() {
        return true;
    }
    match entry {
        FsEntry::Dir { name: _, entries, complete: _ } => {
            let marker = marker_file_name();
            let mut i: usize = 0;
            while i < entries.len()
                invariant
                    i <= entries@.len(),
                    marker@ == marker_name(),
                    entry is Dir,
                    entry->Dir_entries@ == entries@,
                    spec_requires_marker(*folder_name),
                    forall|j: int| 0 <= j < i ==> entry_name(entries@[j]) != marker_name(),
                decreases entries@.len() - i,
            {
                let n = entry_file_name(&entries[i]);
                if *n == marker {
                    proof {
                        assert(entry_name(entries@[i as int]) == marker_name());
                        assert(has_marker(entries@));
                    }
                    return true;
                }
                i += 1;
            }
            proof {
                assert(!has_marker(entries@));
            }
            false
        },
        _ => false,
    }
}

/// The name of an entry, the executable form of [`entry_name`].
pub fn entry_file_name(e: &FsEntry) -> (r: &String)
    ensures
        r@ == entry_name(*e),
{
    match e {
        FsEntry::File { name, .. } => name,
        FsEntry::Dir { name, .. } => name,
        FsEntry::UnreadableDir { name } => name,
        FsEntry::UnknownEntry { name } => name,
    }
}

/// Locates every directory of the configured kind under the directory
/// the snapshot entry `root` stands for; `path` is its display path.
/// Returns, in walk order, the display path of each located directory
/// and an error for each branch the walk could not read, exactly as
/// [`locate_root`] lists them.
pub fn get_paths_to_delete(path: &str, root: &FsEntry, folder_name: &FolderNameEnum) -> (r: Vec<
    Result<String, WalkError>,
>)
    ensures
        r@.len() == locate_root(*root, *folder_name).len(),
        forall|k: int|
            0 <= k < r@.len() ==> item_matches(
                path@,
                locate_root(*root, *folder_name)[k],
                #[trigger] r@[k],
            ),
{
    match root {
        FsEntry::Dir { name: _, entries, complete } => walk_locate(
            path,
            entries,
            *complete,
            folder_name,
        ),
        _ => {
            let mut r: Vec<Result<String, WalkError>> = Vec::new();
            r.push(Err(WalkError::Access { path: path.to_owned() }));
            r
        },
    }
}

/// The recursive walk under [`get_paths_to_delete`], over one opened
/// directory's listing.
fn walk_locate(
    path: &str,
    entries: &Vec<FsEntry>,
    complete: bool,
    folder_name: &FolderNameEnum,
) -> (r: Vec<Result<String, WalkError>>)
    ensures
        r@.len() == locate_listing(entries@, complete, *folder_name).len(),
        forall|k: int|
            0 <= k < r@.len() ==> item_matches(
                path@,
                locate_listing(entries@, complete, *folder_name)[k],
                #[trigger] r@[k],
            ),
    decreases entries@,
{
    let ghost s = entries@;
    let ghost kind = *folder_name;
    let mut r: Vec<Result<String, WalkError>> = Vec::new();
    let target = folder_name.folder_name();
    let mut i: usize = 0;
    while i < entries.len()
        invariant
            i <= s.len(),
            entries@ == s,
            kind == *folder_name,
            target@ == spec_folder_name(kind),
            r@.len() == locate_entries(s.take(i as int), kind).len(),
            forall|k: int|
                0 <= k < r@.len() ==> item_matches(
                    path@,
                    locate_entries(s.take(i as int), kind)[k],
                    #[trigger] r@[k],
                ),
        decreases s.len() - i,
    {
        proof {
            assert(s.take(i + 1) =~= s.take(i as int).push(s[i as int]));
            lemma_locate_entries_push(s.take(i as int), s[i as int], kind);
        }
        let ghost child_items = locate_child(s[i as int], kind);
        let child = &entries[i];
        match child {
            FsEntry::Dir { name, entries: sub_entries, complete: sub_complete } => {
                if *name == target {
                    if is_valid_target(child, folder_name) {
                        let p = join_path(path, name.as_str());
                        proof {
                            lemma_path_join_single(path@, name@);
                            assert(child_items =~= seq![LocItem::Found { rel: seq![name@] }]);
                        }
                        r.push(Ok(p));
                    } else {
                        proof {
                            assert(child_items =~= Seq::<LocItem>::empty());
                        }
                    }
                } else {
                    proof {
                        assert(decreases_to!(s => s[i as int]));
                        assert(decreases_to!(s[i as int] => child->Dir_entries));
                        assert(decreases_to!(child->Dir_entries => child->Dir_entries@));
                        assert(child->Dir_entries@ == sub_entries@);
                        assert(decreases_to!(entries@ => sub_entries@));
                    }
                    let sub_path = join_path(path, name.as_str());
                    let mut sub = walk_locate(sub_path.as_str(), sub_entries, *sub_complete,
                        folder_name);
                    let ghost sub_items = locate_listing(sub_entries@, *sub_complete, kind);
                    proof {
                        assert(child_items == with_parent_all(name@, sub_items));
                        assert(child_items.len() == sub_items.len());
                        assert forall|k: int| 0 <= k < sub_items.len() implies item_matches(
                            path@,
                            child_items[k],
                            #[trigger] sub@[k],
                        ) by {
                            assert(item_matches(sub_path@, sub_items[k], sub@[k]));
                            lemma_with_parent_matches(path@, name@, sub_items[k], sub@[k]);
                            assert(child_items[k] == with_parent(name@, sub_items[k]));
                        }
                    }
                    r.append(&mut sub);
                }
            },
            FsEntry::UnreadableDir { name } => {
                if *name == target {
                    if is_valid_target(child, folder_name) {
                        let p = join_path(path, name.as_str());
                        proof {
                            lemma_path_join_single(path@, name@);
                            assert(child_items =~= seq![LocItem::Found { rel: seq![name@] }]);
                        }
                        r.push(Ok(p));
                    } else {
                        proof {
                            assert(child_items =~= Seq::<LocItem>::empty());
                        }
                    }
                } else {
                    let p = join_path(path, name.as_str());
                    proof {
                        lemma_path_join_single(path@, name@);
                        assert(child_items =~= seq![LocItem::Access { rel: seq![name@] }]);
                    }
                    r.push(Err(WalkError::Access { path: p }));
                }
            },
            _ => {
                proof {
                    assert(child_items =~= Seq::<LocItem>::empty());
                }
            },
        }
        i += 1;
    }
    proof {
        assert(s.take(s.len() as int) =~= s);
    }
    if !complete {
        let ghost before = locate_entries(s, kind);
        proof {
            assert(locate_listing(s, complete, kind) =~= before + seq![
                LocItem::Enumeration { rel: Seq::empty() },
            ]);
        }
        r.push(Err(WalkError::Enumeration { path: path.to_owned() }));
    } else {
        proof {
            assert(locate_listing(s, complete, kind) =~= locate_entries(s, kind));
        }
    }
    r
}

} // verus!

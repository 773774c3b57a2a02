//! The measurer: computes the statistics of one directory subtree of the
//! snapshot.
//!
//! An unreadable directory contributes the zero record wherever it occurs,
//! the top of the walk included. A child entry whose metadata is unknown
//! contributes the zero record. A listing that failed partway is fatal to
//! the whole measurement and surfaces as an error.

use vstd::prelude::*;
use vstd::string::StringExecFns;

use crate::fs_model::{entry_name, join_path, lemma_path_join_step, path_join, FsEntry, WalkError};
use crate::stats::{stat_add, stat_zero, DirInfo, StatTotals};

verus! {

/// The statistics one entry contributes to the directory that lists it:
/// a file counts once with its size; a listed directory counts itself and
/// everything it contributes recursively; an unreadable directory and an
/// entry of unknown metadata contribute nothing.
pub open spec fn measure_entry(e: FsEntry) -> StatTotals
    decreases e,
{
    match e {
        FsEntry::File { name: _, size } => StatTotals { dirs: 0, files: 1, bytes: size as nat },
        FsEntry::Dir { name: _, entries, complete: _ } => stat_add(
            StatTotals { dirs: 1, files: 0, bytes: 0 },
            measure_entries(entries@),
        ),
        FsEntry::UnreadableDir { .. } => stat_zero(),
        FsEntry::UnknownEntry { .. } => stat_zero(),
    }
}

/// The sum of the contributions of a sequence of entries.
pub open spec fn measure_entries(s: Seq<FsEntry>) -> StatTotals
    decreases s,
{
    if s.len() == 0 {
        stat_zero()
    } else {
        stat_add(measure_entry(s[0]), measure_entries(s.drop_first()))
    }
}

/// Whether measuring this entry meets no partial listing: every listed
/// directory reachable from it (unreadable ones are not entered) was
/// listed completely.
pub open spec fn measure_entry_ok(e: FsEntry) -> bool
    decreases e,
{
    match e {
        FsEntry::Dir { name: _, entries, complete } => complete && measure_entries_ok(entries@),
        _ => true,
    }
}

/// [`measure_entry_ok`] over every entry of a sequence.
pub open spec fn measure_entries_ok(s: Seq<FsEntry>) -> bool
    decreases s,
{
    s.len() == 0 || (measure_entry_ok(s[0]) && measure_entries_ok(s.drop_first()))
}

/// What measuring a directory path yields: the contribution of the entry
/// standing for it when that entry is a listed directory, and the zero
/// record otherwise (a path that cannot be opened measures as zero).
pub open spec fn measure_root(e: FsEntry) -> StatTotals {
    if e is Dir {
        measure_entry(e)
    } else {
        stat_zero()
    }
}

/// Whether measuring a directory path succeeds; see [`measure_entry_ok`].
pub open spec fn measure_root_ok(e: FsEntry) -> bool {
    e is Dir ==> measure_entry_ok(e)
}

/// Whether each count of a statistics record fits the machine word the
/// executable record holds it in.
pub open spec fn totals_fit(t: StatTotals) -> bool {
    t.dirs <= usize::MAX && t.files <= usize::MAX && t.bytes <= usize::MAX
}

/// Field-wise order of two statistics records.
pub open spec fn stat_le(a: StatTotals, b: StatTotals) -> bool {
    a.dirs <= b.dirs && a.files <= b.files && a.bytes <= b.bytes
}

/// Appending one entry to a sequence adds its contribution to the sum.
pub proof fn lemma_measure_entries_push(s: Seq<FsEntry>, x: FsEntry)
    ensures
        measure_entries(s.push(x)) == stat_add(measure_entries(s), measure_entry(x)),
    decreases s.len(),
{
    reveal_with_fuel(measure_entries, 3);
    if s.len() == 0 {
        assert(s.push(x)[0] == x);
        assert(s.push(x).drop_first() =~= Seq::<FsEntry>::empty());
    } else {
        assert(s.push(x)[0] == s[0]);
        assert(s.push(x).drop_first() =~= s.drop_first().push(x));
        lemma_measure_entries_push(s.drop_first(), x);
    }
}

/// Appending one entry keeps a sequence free of partial listings exactly
/// when both the sequence and the entry are.
pub proof fn lemma_measure_entries_ok_push(s: Seq<FsEntry>, x: FsEntry)
    ensures
        measure_entries_ok(s.push(x)) == (measure_entries_ok(s) && measure_entry_ok(x)),
    decreases s.len(),
{
    reveal_with_fuel(measure_entries_ok, 3);
    if s.len() == 0 {
        assert(s.push(x)[0] == x);
        assert(s.push(x).drop_first() =~= Seq::<FsEntry>::empty());
        assert(measure_entries_ok(s.push(x)) == measure_entry_ok(x));
    } else {
        assert(s.push(x)[0] == s[0]);
        assert(s.push(x).drop_first() =~= s.drop_first().push(x));
        lemma_measure_entries_ok_push(s.drop_first(), x);
    }
}

/// The sum over a prefix never exceeds the sum over the whole sequence.
pub proof fn lemma_measure_entries_take_le(s: Seq<FsEntry>, i: int)
    requires
        0 <= i <= s.len(),
    ensures
        stat_le(measure_entries(s.take(i)), measure_entries(s)),
    decreases s.len() - i,
{
    if i == s.len() {
        assert(s.take(i) =~= s);
    } else {
        assert(s.take(i + 1) =~= s.take(i).push(s[i]));
        lemma_measure_entries_push(s.take(i), s[i]);
        lemma_measure_entries_take_le(s, i + 1);
    }
}

/// An entry with a partial listing makes the whole sequence fail.
pub proof fn lemma_measure_entries_not_ok(s: Seq<FsEntry>, i: int)
    requires
        0 <= i < s.len(),
        !measure_entry_ok(s[i]),
    ensures
        !measure_entries_ok(s),
    decreases s.len(),
{
    if i > 0 {
        lemma_measure_entries_not_ok(s.drop_first(), i - 1);
    }
}

/// How many of a sequence of entries are listed directories.
pub open spec fn listed_dir_count(s: Seq<FsEntry>) -> nat
    decreases s,
{
    if s.len() == 0 {
        0
    } else {
        (if s[0] is Dir {
            1nat
        } else {
            0nat
        }) + listed_dir_count(s.drop_first())
    }
}

/// The contribution of a sequence of entries counts at least each of its
/// listed directories.
pub proof fn lemma_measure_entries_dirs(s: Seq<FsEntry>)
    ensures
        measure_entries(s).dirs >= listed_dir_count(s),
    decreases s,
{
    if s.len() > 0 {
        lemma_measure_dirs(s[0]);
        lemma_measure_entries_dirs(s.drop_first());
    }
}

/// A listed directory's contribution counts the directory itself.
pub proof fn lemma_measure_dirs(e: FsEntry)
    ensures
        e is Dir ==> measure_entry(e).dirs >= 1,
    decreases e,
{
}

/// A measured directory counts itself and at least each listed
/// subdirectory it directly holds.
pub proof fn lemma_measure_counts_subdirs(e: FsEntry)
    requires
        e is Dir,
    ensures
        measure_entry(e).dirs >= 1 + listed_dir_count(e->Dir_entries@),
{
    lemma_measure_entries_dirs(e->Dir_entries@);
}

/// Measuring a path that cannot be opened yields the zero record and
/// never an error.
pub proof fn lemma_unreadable_measures_zero(e: FsEntry)
    requires
        e is UnreadableDir,
    ensures
        measure_root(e) == stat_zero(),
        measure_root_ok(e),
{
}

/// Whether the index path `p` leads from `e`, descending only through
/// listed directories, to a directory whose listing was cut short.
pub open spec fn incomplete_at(e: FsEntry, p: Seq<int>) -> bool
    decreases p.len(),
{
    if p.len() == 0 {
        e is Dir && !e->Dir_complete
    } else {
        &&& e is Dir
        &&& 0 <= p[0] < e->Dir_entries@.len()
        &&& incomplete_at(e->Dir_entries@[p[0]], p.drop_first())
    }
}

/// The names along the index path `p` below `e`, `e`'s own name not
/// included.
pub open spec fn names_below(e: FsEntry, p: Seq<int>) -> Seq<Seq<char>>
    decreases p.len(),
{
    if p.len() == 0 {
        Seq::empty()
    } else {
        seq![entry_name(e->Dir_entries@[p[0]])] + names_below(e->Dir_entries@[p[0]], p.drop_first())
    }
}

/// Measures the directory the snapshot entry `entry` stands for; `path`
/// names it for error reporting. Returns the exact statistics of the
/// subtree whenever no listing in it failed partway, and an enumeration
/// error naming a directory whose listing was cut short otherwise. An
/// entry that is not a listed directory (in particular, a path that
/// could not be opened) measures as zero.
pub fn dir_size(path: &str, entry: &FsEntry) -> (r: Result<DirInfo, WalkError>)
    requires
        totals_fit(measure_root(*entry)),
    ensures
        r is Ok <==> measure_root_ok(*entry),
        r matches Ok(d) ==> d@ == measure_root(*entry),
        r matches Err(e) ==> e is Enumeration && exists|p: Seq<int>|
            incomplete_at(*entry, p) && e->Enumeration_path@ == path_join(
                path@,
                names_below(*entry, p),
            ),
{
    match entry {
        FsEntry::Dir { .. } => walk_measure(path, entry),
        _ => Ok(DirInfo::new(0, 0, 0)),
    }
}

/// The recursive walk under [`dir_size`], on an entry known to be a
/// listed directory.
fn walk_measure(path: &str, entry: &FsEntry) -> (r: Result<DirInfo, WalkError>)
    requires
        entry is Dir,
        totals_fit(measure_entry(*entry)),
    ensures
        r is Ok <==> measure_entry_ok(*entry),
        r matches Ok(d) ==> d@ == measure_entry(*entry),
        r matches Err(e) ==> e is Enumeration && exists|p: Seq<int>|
            incomplete_at(*entry, p) && e->Enumeration_path@ == path_join(
                path@,
                names_below(*entry, p),
            ),
    decreases *entry,
{
    match entry {
        FsEntry::Dir { name: _, entries, complete } => {
            let ghost s = entries@;
            proof {
                assert(measure_entry(*entry) == stat_add(
                    (StatTotals { dirs: 1, files: 0, bytes: 0 }),
                    measure_entries(s),
                ));
            }
            let mut acc = DirInfo::new(0, 0, 0);
            let mut i: usize = 0;
            while i < entries.len()
                invariant
                    i <= s.len(),
                    entries@ == s,
                    entry is Dir,
                    entry->Dir_entries@ == s,
                    totals_fit(measure_entry(*entry)),
                    measure_entry(*entry) == stat_add(
                        (StatTotals { dirs: 1, files: 0, bytes: 0 }),
                        measure_entries(s),
                    ),
                    acc@ == measure_entries(s.take(i as int)),
                    measure_entries_ok(s.take(i as int)),
                decreases s.len() - i,
            {
                proof {
                    assert(s.take(i + 1) =~= s.take(i as int).push(s[i as int]));
                    lemma_measure_entries_push(s.take(i as int), s[i as int]);
                    lemma_measure_entries_ok_push(s.take(i as int), s[i as int]);
                    lemma_measure_entries_take_le(s, i + 1);
                }
                let child = &entries[i];
                match child {
                    FsEntry::File { name: _, size } => {
                        acc = acc.add(DirInfo::new(0, 1, *size));
                    },
                    FsEntry::Dir { name, .. } => {
                        proof {
                            assert(decreases_to!(*entry => entry->Dir_entries));
                            assert(decreases_to!(entry->Dir_entries => entry->Dir_entries@));
                            assert(decreases_to!(entry->Dir_entries@ => entry->Dir_entries@[i as int]));
                            assert(entry->Dir_entries@[i as int] == *child);
                            assert(decreases_to!(*entry => *child));
                        }
                        let child_path = join_path(path, name.as_str());
                        let sub = walk_measure(child_path.as_str(), child);
                        match sub {
                            Ok(d) => {
                                acc = acc.add(d);
                            },
                            Err(e) => {
                                proof {
                                    assert(!measure_entry_ok(s[i as int]));
                                    lemma_measure_entries_not_ok(s, i as int);
                                    assert(!measure_entry_ok(*entry));
                                    let sub_p = choose|q: Seq<int>|
                                        incomplete_at(*child, q) && e->Enumeration_path@
                                            == path_join(child_path@, names_below(*child, q));
                                    let p = seq![i as int] + sub_p;
                                    assert(p.drop_first() =~= sub_p);
                                    lemma_path_join_step(path@, name@, names_below(*child, sub_p));
                                    assert(incomplete_at(*entry, p));
                                    assert(names_below(*entry, p) == seq![name@] + names_below(
                                        *child,
                                        sub_p,
                                    ));
                                    assert(e->Enumeration_path@ == path_join(
                                        path@,
                                        names_below(*entry, p),
                                    ));
                                }
                                return Err(e);
                            },
                        }
                    },
                    _ => {},
                }
                i += 1;
            }
            proof {
                assert(s.take(s.len() as int) =~= s);
            }
            if *complete {
                Ok(DirInfo::new(1, 0, 0).add(acc))
            } else {
                proof {
                    assert(incomplete_at(*entry, Seq::<int>::empty()));
                    assert(path_join(path@, names_below(*entry, Seq::<int>::empty())) == path@);
                }
                Err(WalkError::Enumeration { path: path.to_owned() })
            }
        },
        _ => Ok(DirInfo::new(0, 0, 0)),
    }
}

} // verus!

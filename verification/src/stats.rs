//! The statistics record for a measured directory subtree, its addition,
//! and its display formatting.

use vstd::prelude::*;

verus! {

/// Mathematical model of a statistics record: unbounded counts.
pub ghost struct StatTotals {
    pub dirs: nat,
    pub files: nat,
    pub bytes: nat,
}

/// The identity element of statistics addition.
pub open spec fn stat_zero() -> StatTotals {
    StatTotals { dirs: 0, files: 0, bytes: 0 }
}

/// Field-wise addition of two statistics records.
pub open spec fn stat_add(a: StatTotals, b: StatTotals) -> StatTotals {
    StatTotals {
        dirs: a.dirs + b.dirs,
        files: a.files + b.files,
        bytes: a.bytes + b.bytes,
    }
}

/// Adding the zero record on either side changes nothing.
pub proof fn lemma_stat_add_zero(a: StatTotals)
    ensures
        stat_add(a, stat_zero()) == a,
        stat_add(stat_zero(), a) == a,
{
}

/// Statistics addition is commutative.
pub proof fn lemma_stat_add_comm(a: StatTotals, b: StatTotals)
    ensures
        stat_add(a, b) == stat_add(b, a),
{
}

/// Statistics addition is associative.
pub proof fn lemma_stat_add_assoc(a: StatTotals, b: StatTotals, c: StatTotals)
    ensures
        stat_add(stat_add(a, b), c) == stat_add(a, stat_add(b, c)),
{
}

/// Statistics for one directory subtree: how many directories and regular
/// files it holds, and the total byte size of those files.
#[derive(Debug, Copy, Clone, PartialEq, Eq, Structural)]
pub struct DirInfo {
    pub dir_count: usize,
    pub file_count: usize,
    pub size: usize,
}

impl View for DirInfo {
    type V = StatTotals;

    open spec fn view(&self) -> StatTotals {
        StatTotals {
            dirs: self.dir_count as nat,
            files: self.file_count as nat,
            bytes: self.size as nat,
        }
    }
}

impl DirInfo {
    pub fn new(dir_count: usize, file_count: usize, size: usize) -> (r: DirInfo)
        ensures
            r == (DirInfo { dir_count, file_count, size }),
    {
        DirInfo { dir_count, file_count, size }
    }

    /// Field-wise sum of two records, the executable form of [`stat_add`].
    pub fn add(self, other: DirInfo) -> (r: DirInfo)
        requires
            self.dir_count + other.dir_count <= usize::MAX,
            self.file_count + other.file_count <= usize::MAX,
            self.size + other.size <= usize::MAX,
        ensures
            r@ == stat_add(self@, other@),
    {
        DirInfo {
            dir_count: self.dir_count + other.dir_count,
            file_count: self.file_count + other.file_count,
            size: self.size + other.size,
        }
    }

    /// The file count as a decimal string with commas between groups of
    /// three digits.
    pub fn file_count_formatted(&self) -> (r: String)
        ensures
            r@ == comma_grouped(self.file_count as nat),
    {
        format_grouped(self.file_count)
    }

    /// The size in whole mebibytes (truncating division) as a decimal
    /// string with commas between groups of three digits.
    pub fn size_formatted_mb(&self) -> (r: String)
        ensures
            r@ == comma_grouped((self.size / 1048576) as nat),
    {
        let num: usize = self.size / 1048576;
        format_grouped(num)
    }
}

/// The character for one decimal digit.
pub open spec fn digit_char(d: nat) -> char {
    if d == 0 {
        '0'
    } else if d == 1 {
        '1'
    } else if d == 2 {
        '2'
    } else if d == 3 {
        '3'
    } else if d == 4 {
        '4'
    } else if d == 5 {
        '5'
    } else if d == 6 {
        '6'
    } else if d == 7 {
        '7'
    } else if d == 8 {
        '8'
    } else {
        '9'
    }
}

/// The decimal digits of `n`, most significant first, with no leading
/// zeros (a single `'0'` for zero).
pub open spec fn dec_digits(n: nat) -> Seq<char>
    decreases n,
{
    if n < 10 {
        seq![digit_char(n)]
    } else {
        dec_digits(n / 10).push(digit_char(n % 10))
    }
}

/// Inserts a comma before every group of three characters, counted from
/// the right.
pub open spec fn comma_group(ds: Seq<char>) -> Seq<char>
    decreases ds.len(),
{
    if ds.len() <= 3 {
        ds
    } else {
        comma_group(ds.take(ds.len() - 3)) + seq![','] + ds.skip(ds.len() - 3)
    }
}

/// The decimal digits of `n` grouped in threes by commas, as in
/// `1,234,567`.
pub open spec fn comma_grouped(n: nat) -> Seq<char> {
    comma_group(dec_digits(n))
}

/// Relies on num-format's `ToFormattedString` with `Locale::en`: that
/// locale formats an integer as its decimal digits with the standard
/// grouping, a comma before every group of three digits from the right.
#[verifier::external_body]
fn format_grouped(n: usize) -> (r: String)
    ensures
        r@ == comma_grouped(n as nat),
{
    num_format::ToFormattedString::to_formatted_string(&n, &num_format::Locale::en)
}

} // verus!

use vstd::prelude::*;

verus! {

use crate::graph::count_marked;
use crate::manager::CacheManager;
use crate::strutil::concat2;
use crate::strutil::starts_with_seq;
use crate::strutil::str_starts_with;
use vstd::string::StrSliceExecFns;

/// `i` occurs among the selected indices.
pub open spec fn contains_idx(r: Seq<usize>, i: int) -> bool {
    exists|k: int| 0 <= k < r.len() && #[trigger] r[k] == i
}

/// The selected indices are pairwise distinct.
pub open spec fn distinct_idx(r: Seq<usize>) -> bool {
    forall|k1: int, k2: int|
        0 <= k1 < r.len() && 0 <= k2 < r.len() && k1 != k2 ==> #[trigger] r[k1] != #[trigger] r[k2]
}

/// The filename begins with some listed package name followed by a dash.
pub open spec fn matches_some_name(filename: Seq<char>, names: Seq<Seq<char>>) -> bool {
    exists|k: int| 0 <= k < names.len() && starts_with_seq(filename, #[trigger] names[k] + "-"@)
}

proof fn lemma_contains_idx_push(r: Seq<usize>, x: usize, i: int)
    ensures
        contains_idx(r.push(x), i) == (contains_idx(r, i) || i == x),
{
    if contains_idx(r, i) {
        let k = choose|k: int| 0 <= k < r.len() && #[trigger] r[k] == i;
        assert(r.push(x)[k] == i);
    }
    if i == x {
        assert(r.push(x)[r.len() as int] == i);
    }
    if contains_idx(r.push(x), i) {
        let k = choose|k: int| 0 <= k < r.push(x).len() && #[trigger] r.push(x)[k] == i;
        if k < r.len() {
            assert(r[k] == i);
        }
    }
}

/// If every mark is set, the count equals the length.
proof fn lemma_count_marked_full(m: Seq<bool>)
    requires
        forall|j: int| 0 <= j < m.len() ==> #[trigger] m[j],
    ensures
        count_marked(m) == m.len(),
    decreases m.len(),
{
    if m.len() > 0 {
        assert(forall|j: int|
            0 <= j < m.drop_first().len() ==> #[trigger] m.drop_first()[j] == m[j + 1]);
        lemma_count_marked_full(m.drop_first());
    }
}

impl CacheManager {
    /// Selects, in ascending order, the indices of the entries whose
    /// modification time lies before the cutoff: exactly the files that
    /// pruning by age removes, with their per-build metadata records.
    pub fn prune_older_than(&self, entries: &Vec<(String, u64)>, cutoff: u64) -> (r: Vec<usize>)
        ensures
            forall|k: int|
                0 <= k < r@.len() ==> #[trigger] r@[k] < entries@.len() && entries@[r@[k] as int].1
                    < cutoff,
            forall|i: int|
                0 <= i < entries@.len() ==> (#[trigger] contains_idx(r@, i) <==> entries@[i].1
                    < cutoff),
            distinct_idx(r@),
    {
        let mut out: Vec<usize> = Vec::new();
        let mut i: usize = 0;
        while i < entries.len()
            invariant
                i <= entries@.len(),
                forall|k: int|
                    0 <= k < out@.len() ==> #[trigger] out@[k] < i && entries@[out@[k] as int].1
                        < cutoff,
                forall|j: int|
                    0 <= j < i ==> (#[trigger] contains_idx(out@, j) <==> entries@[j].1 < cutoff),
                distinct_idx(out@),
            decreases entries@.len() - i,
        {
            let ghost prev = out@;
            if entries[i].1 < cutoff {
                out.push(i);
            }
            proof {
                assert forall|j: int| 0 <= j < i + 1 implies (#[trigger] contains_idx(out@, j)
                    <==> entries@[j].1 < cutoff) by {
                    if entries@[i as int].1 < cutoff {
                        lemma_contains_idx_push(prev, i, j);
                    }
                }
            }
            i = i + 1;
        }
        out
    }

    /// Selects the indices of the oldest entries so that at most `keep`
    /// remain: every removed entry's modification time is at most every
    /// kept entry's. The number of entries left after removal never
    /// exceeds `keep`.
    pub fn prune_keep_last(&self, entries: &Vec<(String, u64)>, keep: usize) -> (r: Vec<usize>)
        ensures
            r@.len() == (if keep < entries@.len() {
                entries@.len() - keep
            } else {
                0
            }),
            entries@.len() - r@.len() <= keep || entries@.len() <= keep,
            forall|k: int| 0 <= k < r@.len() ==> #[trigger] r@[k] < entries@.len(),
            distinct_idx(r@),
            forall|k: int, i: int|
                #![trigger r@[k], entries@[i]]
                0 <= k < r@.len() && 0 <= i < entries@.len() && !contains_idx(r@, i)
                    ==> entries@[r@[k] as int].1 <= entries@[i].1,
    {
        let n = entries.len();
        if keep >= n {
            let r: Vec<usize> = Vec::new();
            return r;
        }
        let total = n - keep;
        let mut out: Vec<usize> = Vec::new();
        let mut picked: Vec<bool> = Vec::new();
        let mut j: usize = 0;
        while j < n
            invariant
                j <= n,
                picked@.len() == j,
                forall|j2: int| 0 <= j2 < j ==> !(#[trigger] picked@[j2]),
            decreases n - j,
        {
            picked.push(false);
            j = j + 1;
        }
        proof {
            assert(count_marked(picked@) == 0) by {
                lemma_count_none(picked@);
            }
        }
        let mut t: usize = 0;
        while t < total
            invariant
                n == entries@.len(),
                keep < n,
                total == n - keep,
                t <= total,
                picked@.len() == n,
                out@.len() == t,
                t == count_marked(picked@),
                forall|i: int| 0 <= i < n ==> (#[trigger] picked@[i] <==> contains_idx(out@, i)),
                forall|k: int| 0 <= k < out@.len() ==> #[trigger] out@[k] < n,
                distinct_idx(out@),
                forall|k: int, i: int|
                    #![trigger out@[k], entries@[i]]
                    0 <= k < out@.len() && 0 <= i < n && !picked@[i]
                        ==> entries@[out@[k] as int].1 <= entries@[i].1,
            decreases total - t,
        {
            // Find the oldest entry that is not yet selected.
            let mut best: usize = n;
            let mut j2: usize = 0;
            while j2 < n
                invariant
                    n == entries@.len(),
                    picked@.len() == n,
                    j2 <= n,
                    best <= n,
                    best < n ==> !picked@[best as int],
                    best < n ==> forall|i: int|
                        0 <= i < j2 && !(#[trigger] picked@[i]) ==> entries@[best as int].1
                            <= entries@[i].1,
                    best == n ==> forall|i: int| 0 <= i < j2 ==> #[trigger] picked@[i],
                decreases n - j2,
            {
                if !picked[j2] {
                    if best == n {
                        best = j2;
                    } else if entries[j2].1 < entries[best].1 {
                        best = j2;
                    }
                }
                j2 = j2 + 1;
            }
            proof {
                if best == n {
                    lemma_count_marked_full(picked@);
                    assert(false);
                }
            }
            let ghost prev = out@;
            let ghost p0 = picked@;
            out.push(best);
            picked[best] = true;
            proof {
                crate::graph::lemma_count_marked_update(p0, best as int);
                assert forall|i: int| 0 <= i < n implies (#[trigger] picked@[i] <==> contains_idx(
                    out@,
                    i,
                )) by {
                    lemma_contains_idx_push(prev, best, i);
                }
                assert forall|k: int, i: int|
                    #![trigger out@[k], entries@[i]]
                    0 <= k < out@.len() && 0 <= i < n && !picked@[i]
                        implies entries@[out@[k] as int].1 <= entries@[i].1 by {
                    if k < prev.len() {
                        assert(!p0[i]);
                    } else {
                        assert(out@[k] == best);
                        assert(!p0[i]);
                    }
                }
            }
            t = t + 1;
        }
        out
    }

    /// The cutoff before which pruning by age removes a file: the time
    /// this many days before now, clamped at the epoch.
    pub fn cutoff_time(&self, now_secs: u64, days: u64) -> (r: u64)
        ensures
            r == (if days * 86400 <= now_secs {
                now_secs - days * 86400
            } else {
                0
            }),
    {
        match days.checked_mul(86400) {
            Some(span) => {
                if span <= now_secs {
                    now_secs - span
                } else {
                    0
                }
            },
            None => 0,
        }
    }

    /// Selects, in ascending order, the indices of the record filenames
    /// that begin with one of the given package names followed by a dash:
    /// exactly the records that invalidation by name removes.
    pub fn invalidate_by_package_names(&self, filenames: &Vec<String>, names: &Vec<String>) -> (r:
        Vec<usize>)
        ensures
            forall|k: int| 0 <= k < r@.len() ==> #[trigger] r@[k] < filenames@.len(),
            forall|i: int|
                0 <= i < filenames@.len() ==> (#[trigger] contains_idx(r@, i) <==> matches_some_name(
                    filenames@[i]@,
                    names.deep_view(),
                )),
            distinct_idx(r@),
    {
        let ghost nv = names.deep_view();
        let mut out: Vec<usize> = Vec::new();
        let mut i: usize = 0;
        while i < filenames.len()
            invariant
                nv == names.deep_view(),
                i <= filenames@.len(),
                forall|k: int| 0 <= k < out@.len() ==> #[trigger] out@[k] < i,
                forall|j: int|
                    0 <= j < i ==> (#[trigger] contains_idx(out@, j) <==> matches_some_name(
                        filenames@[j]@,
                        nv,
                    )),
                distinct_idx(out@),
            decreases filenames@.len() - i,
        {
            let ghost prev = out@;
            let m = name_prefix_matches(&filenames[i], names);
            if m {
                out.push(i);
            }
            proof {
                assert forall|j: int| 0 <= j < i + 1 implies (#[trigger] contains_idx(out@, j)
                    <==> matches_some_name(filenames@[j]@, nv)) by {
                    if m {
                        lemma_contains_idx_push(prev, i, j);
                    }
                }
            }
            i = i + 1;
        }
        out
    }

    /// Shortens a rendered command for the listing: over thirty characters
    /// it is cut to its first twenty-seven with a trailing ellipsis.
    pub fn truncate_command(&self, command: &str) -> (r: String)
        ensures
            command@.len() > 30 ==> r@ == command@.take(27) + "..."@,
            command@.len() <= 30 ==> r@ == command@,
    {
        let l = command.unicode_len();
        if l > 30 {
            let head = crate::strutil::str_take(command, 27);
            concat2(head.as_str(), "...")
        } else {
            command.to_owned()
        }
    }
}

/// No mark set means a count of zero.
proof fn lemma_count_none(m: Seq<bool>)
    requires
        forall|j: int| 0 <= j < m.len() ==> !(#[trigger] m[j]),
    ensures
        count_marked(m) == 0,
    decreases m.len(),
{
    if m.len() > 0 {
        assert(forall|j: int|
            0 <= j < m.drop_first().len() ==> #[trigger] m.drop_first()[j] == m[j + 1]);
        lemma_count_none(m.drop_first());
    }
}

/// The filename begins with some listed name followed by a dash.
fn name_prefix_matches(filename: &String, names: &Vec<String>) -> (r: bool)
    ensures
        r == matches_some_name(filename@, names.deep_view()),
{
    let ghost nv = names.deep_view();
    let mut k: usize = 0;
    while k < names.len()
        invariant
            nv == names.deep_view(),
            nv.len() == names@.len(),
            k <= names@.len(),
            forall|j: int| 0 <= j < k ==> !starts_with_seq(filename@, #[trigger] nv[j] + "-"@),
        decreases names@.len() - k,
    {
        proof {
            assert(nv[k as int] == names@[k as int]@);
        }
        let prefix = concat2(names[k].as_str(), "-");
        if str_starts_with(filename.as_str(), prefix.as_str()) {
            return true;
        }
        k = k + 1;
    }
    false
}

/// After invalidation by name, no surviving record filename begins with
/// any of the given names followed by a dash.
pub proof fn lemma_invalidation_complete(
    filenames: Seq<String>,
    names: Seq<Seq<char>>,
    removed: Seq<usize>,
    i: int,
)
    requires
        forall|i2: int|
            0 <= i2 < filenames.len() ==> (#[trigger] contains_idx(removed, i2)
                <==> matches_some_name(filenames[i2]@, names)),
        0 <= i < filenames.len(),
        !contains_idx(removed, i),
    ensures
        forall|k: int| 0 <= k < names.len() ==> !starts_with_seq(filenames[i]@, #[trigger] names[k] + "-"@),
{
    assert(!matches_some_name(filenames[i]@, names));
}

} // verus!

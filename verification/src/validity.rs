use vstd::prelude::*;

verus! {

use vstd::string::StringExecFns;
use crate::manager::CacheManager;
use crate::model::IncrementalCache;
use crate::model::PackageHash;
use crate::model::WorkspaceState;
use crate::strutil::contains_seq;
use crate::strutil::join_path;
use crate::strutil::str_contains;
use crate::strutil::str_eq;

/// Every file listed in a record still has the size the record stored;
/// `None` stands for a file that could not be measured because it is gone.
pub open spec fn sizes_match(target_files: Seq<(String, u64)>, sizes: Seq<Option<u64>>) -> bool {
    forall|i: int| 0 <= i < target_files.len() ==> #[trigger] sizes[i] == Some(target_files[i].1)
}

/// A stored record still vouches for a package: the lock, environment,
/// features and source hashes all match, the recorded build succeeded, and
/// every listed file is still present with its recorded size.
pub open spec fn spec_record_valid(
    rec: IncrementalCache,
    pkg_source_hash: Seq<char>,
    lock_hash: Seq<char>,
    env_hash: Seq<char>,
    features_hash: Seq<char>,
    sizes: Seq<Option<u64>>,
) -> bool {
    &&& rec.cargo_lock_hash@ == lock_hash
    &&& rec.env_hash@ == env_hash
    &&& rec.features_hash@ == features_hash
    &&& rec.source_hash@ == pkg_source_hash
    &&& rec.build_success
    &&& sizes_match(rec.target_files@, sizes)
}

/// The files of a candidate list that are attributed to a package: those
/// whose path contains the package name.
pub open spec fn matching_files(files: Seq<(String, u64)>, name: Seq<char>) -> Seq<(String, u64)>
    decreases files.len(),
{
    if files.len() == 0 {
        Seq::empty()
    } else if contains_seq(files[0].0@, name) {
        seq![files[0]] + matching_files(files.drop_first(), name)
    } else {
        matching_files(files.drop_first(), name)
    }
}

/// The paths of a file list, in order.
pub open spec fn file_names(files: Seq<(String, u64)>) -> Seq<Seq<char>> {
    Seq::new(files.len(), |i: int| files[i].0@)
}

impl CacheManager {
    /// Decides whether a stored record still vouches for a package under
    /// the current hashes and the observed sizes of its listed files.
    /// `artifact_sizes[i]` is the current size of the record's `i`-th
    /// listed file, and `None` when that file is gone.
    #[verifier::loop_isolation(false)]
    pub fn check_incremental_cache(
        &self,
        package: &PackageHash,
        workspace_state: &WorkspaceState,
        env_hash: &str,
        features_hash: &str,
        record: &Option<IncrementalCache>,
        artifact_sizes: &Vec<Option<u64>>,
    ) -> (r: bool)
        requires
            match record {
                Some(rec) => artifact_sizes@.len() == rec.target_files@.len(),
                None => true,
            },
        ensures
            r == match record {
                Some(rec) => spec_record_valid(
                    *rec,
                    package.source_hash@,
                    workspace_state.cargo_lock_hash@,
                    env_hash@,
                    features_hash@,
                    artifact_sizes@,
                ),
                None => false,
            },
    {
        let rec = match record {
            Some(rec) => rec,
            None => {
                return false;
            },
        };
        if !str_eq(rec.cargo_lock_hash.as_str(), workspace_state.cargo_lock_hash.as_str()) {
            return false;
        }
        if !str_eq(rec.env_hash.as_str(), env_hash) {
            return false;
        }
        if !str_eq(rec.features_hash.as_str(), features_hash) {
            return false;
        }
        if !str_eq(rec.source_hash.as_str(), package.source_hash.as_str()) {
            return false;
        }
        if !rec.build_success {
            return false;
        }
        let mut i: usize = 0;
        while i < rec.target_files.len()
            invariant
                artifact_sizes@.len() == rec.target_files@.len(),
                i <= rec.target_files@.len(),
                forall|j: int|
                    0 <= j < i ==> #[trigger] artifact_sizes@[j] == Some(rec.target_files@[j].1),
            decreases rec.target_files@.len() - i,
        {
            let expected = rec.target_files[i].1;
            match artifact_sizes[i] {
                Some(actual) => {
                    if actual != expected {
                        proof {
                            assert(artifact_sizes@[i as int] != Some(rec.target_files@[i as int].1));
                        }
                        return false;
                    }
                },
                None => {
                    proof {
                        assert(artifact_sizes@[i as int] != Some(rec.target_files@[i as int].1));
                    }
                    return false;
                },
            }
            i = i + 1;
        }
        true
    }

    /// Assembles the record persisted for one successful package build: the
    /// composite-key fields stored explicitly, the lock hash, and the files
    /// of the two scanned output directories that are attributed to the
    /// package, each with its current size. Records exist only for
    /// successful builds, so the stored flag is always true.
    #[verifier::loop_isolation(false)]
    pub fn save_incremental_cache(
        &self,
        package: &PackageHash,
        workspace_state: &WorkspaceState,
        command_hash: &str,
        env_hash: &str,
        is_release: bool,
        features_hash: &str,
        fingerprint_files: &Vec<(String, u64)>,
        deps_files: &Vec<(String, u64)>,
        timestamp: &str,
        duration_ms: u64,
    ) -> (r: IncrementalCache)
        ensures
            r.package_name@ == package.name@,
            r.package_version@ == package.version@,
            r.source_hash@ == package.source_hash@,
            r.cargo_lock_hash@ == workspace_state.cargo_lock_hash@,
            r.command_hash@ == command_hash@,
            r.env_hash@ == env_hash@,
            r.is_release == is_release,
            r.features_hash@ == features_hash@,
            r.target_files@ == matching_files(fingerprint_files@, package.name@) + matching_files(
                deps_files@,
                package.name@,
            ),
            r.artifact_paths.deep_view() == file_names(matching_files(deps_files@, package.name@)),
            r.timestamp@ == timestamp@,
            r.build_success,
            r.duration_ms == duration_ms,
    {
        let mut target_files = filter_matching(fingerprint_files, package.name.as_str());
        let mut from_deps = filter_matching(deps_files, package.name.as_str());
        let ghost fp_part = target_files@;
        let ghost dp_part = from_deps@;
        let mut artifact_paths: Vec<String> = Vec::new();
        let mut k: usize = 0;
        while k < from_deps.len()
            invariant
                from_deps@ == dp_part,
                k <= dp_part.len(),
                artifact_paths.deep_view() =~= file_names(dp_part).take(k as int),
            decreases dp_part.len() - k,
        {
            artifact_paths.push(from_deps[k].0.clone());
            proof {
                assert(artifact_paths.deep_view() =~= file_names(dp_part).take(k as int + 1));
            }
            k = k + 1;
        }
        proof {
            assert(file_names(dp_part).take(dp_part.len() as int) =~= file_names(dp_part));
        }
        target_files.append(&mut from_deps);
        proof {
            assert(target_files@ =~= fp_part + dp_part);
        }
        IncrementalCache {
            package_name: package.name.clone(),
            package_version: package.version.clone(),
            source_hash: package.source_hash.clone(),
            cargo_lock_hash: workspace_state.cargo_lock_hash.clone(),
            command_hash: command_hash.to_owned(),
            env_hash: env_hash.to_owned(),
            is_release,
            features_hash: features_hash.to_owned(),
            target_files,
            artifact_paths,
            timestamp: timestamp.to_owned(),
            build_success: true,
            duration_ms,
        }
    }

    /// The two directories scanned for a package's build outputs: the
    /// fingerprint directory and the dependency output directory of the
    /// chosen profile.
    pub fn artifact_scan_dirs(&self, target_dir: &str, is_release: bool) -> (r: (String, String))
        ensures
            r.0@ == target_dir@ + "/"@ + (if is_release {
                "release"@
            } else {
                "debug"@
            }) + "/"@ + ".fingerprint"@,
            r.1@ == target_dir@ + "/"@ + (if is_release {
                "release"@
            } else {
                "debug"@
            }) + "/"@ + "deps"@,
    {
        let profile_dir = if is_release {
            join_path(target_dir, "release")
        } else {
            join_path(target_dir, "debug")
        };
        let fingerprint = join_path(profile_dir.as_str(), ".fingerprint");
        let deps = join_path(profile_dir.as_str(), "deps");
        (fingerprint, deps)
    }
}

/// Keeps, in order, the candidate files whose path contains the name.
fn filter_matching(files: &Vec<(String, u64)>, name: &str) -> (r: Vec<(String, u64)>)
    ensures
        r@ == matching_files(files@, name@),
{
    let mut out: Vec<(String, u64)> = Vec::new();
    let mut i: usize = 0;
    proof {
        assert(files@.skip(0) =~= files@);
        assert(out@ + matching_files(files@, name@) =~= matching_files(files@, name@));
    }
    while i < files.len()
        invariant
            i <= files@.len(),
            matching_files(files@, name@) == out@ + matching_files(files@.skip(i as int), name@),
        decreases files@.len() - i,
    {
        let ghost tail = files@.skip(i as int);
        let ghost prev = out@;
        proof {
            assert(tail.len() > 0);
            assert(tail[0] == files@[i as int]);
            assert(tail.drop_first() =~= files@.skip(i as int + 1));
        }
        if str_contains(files[i].0.as_str(), name) {
            let entry = (files[i].0.clone(), files[i].1);
            out.push(entry);
            proof {
                assert(out@ =~= prev.push(files@[i as int]));
                assert(prev.push(files@[i as int]) + matching_files(
                    files@.skip(i as int + 1),
                    name@,
                ) =~= prev + (seq![files@[i as int]] + matching_files(
                    files@.skip(i as int + 1),
                    name@,
                )));
            }
        }
        i = i + 1;
    }
    proof {
        assert(files@.skip(files@.len() as int).len() == 0);
        assert(out@ + Seq::<(String, u64)>::empty() =~= out@);
    }
    out
}

/// A record whose stored source hash differs from the package's current
/// source hash never vouches for it: mutating a source file flips the
/// package into the changed set.
pub proof fn lemma_source_change_invalidates(
    rec: IncrementalCache,
    pkg_source_hash: Seq<char>,
    lock_hash: Seq<char>,
    env_hash: Seq<char>,
    features_hash: Seq<char>,
    sizes: Seq<Option<u64>>,
)
    requires
        rec.source_hash@ != pkg_source_hash,
    ensures
        !spec_record_valid(rec, pkg_source_hash, lock_hash, env_hash, features_hash, sizes),
{
}

/// A record stored under a different environment hash never vouches for
/// its package: changing a listed environment variable invalidates every
/// package whose record carries the old hash.
pub proof fn lemma_env_change_invalidates(
    rec: IncrementalCache,
    pkg_source_hash: Seq<char>,
    lock_hash: Seq<char>,
    env_hash: Seq<char>,
    features_hash: Seq<char>,
    sizes: Seq<Option<u64>>,
)
    requires
        rec.env_hash@ != env_hash,
    ensures
        !spec_record_valid(rec, pkg_source_hash, lock_hash, env_hash, features_hash, sizes),
{
}

/// A record stored under a different lockfile hash never vouches for its
/// package: changing the lockfile invalidates every package whose record
/// carries the old hash.
pub proof fn lemma_lock_change_invalidates(
    rec: IncrementalCache,
    pkg_source_hash: Seq<char>,
    lock_hash: Seq<char>,
    env_hash: Seq<char>,
    features_hash: Seq<char>,
    sizes: Seq<Option<u64>>,
)
    requires
        rec.cargo_lock_hash@ != lock_hash,
    ensures
        !spec_record_valid(rec, pkg_source_hash, lock_hash, env_hash, features_hash, sizes),
{
}

/// A record one of whose listed files is gone or has changed size never
/// vouches for its package: deleting one artifact flips that package into
/// the changed set.
pub proof fn lemma_artifact_change_invalidates(
    rec: IncrementalCache,
    pkg_source_hash: Seq<char>,
    lock_hash: Seq<char>,
    env_hash: Seq<char>,
    features_hash: Seq<char>,
    sizes: Seq<Option<u64>>,
    j: int,
)
    requires
        0 <= j < rec.target_files@.len(),
        sizes[j] != Some(rec.target_files@[j].1),
    ensures
        !spec_record_valid(rec, pkg_source_hash, lock_hash, env_hash, features_hash, sizes),
{
    if spec_record_valid(rec, pkg_source_hash, lock_hash, env_hash, features_hash, sizes) {
        assert(sizes[j] == Some(rec.target_files@[j].1));
    }
}

} // verus!

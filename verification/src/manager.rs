use vstd::prelude::*;

verus! {

use crate::model::PackageHash;
use crate::strutil::concat2;
use crate::strutil::join_path;
use crate::strutil::str_take;

/// Central owner of the on-disk cache layout: a base directory with a
/// version segment, and under it the log files, the per-build metadata
/// records and the per-package incremental records.
#[derive(Debug, Clone)]
pub struct CacheManager {
    /// `<base>/v4`, holding the raw build logs
    pub cache_dir: String,
    /// `<base>/v4/incremental`, holding the per-package records
    pub incremental_dir: String,
    /// `<base>/v4/metadata`, holding the per-build records
    pub metadata_dir: String,
}

/// The dash-joined composite key under which one package's record is filed:
/// package name, the first 16 digits of its source hash, the command hash,
/// the environment hash, the profile, and the features hash.
pub open spec fn composite_key(
    name: Seq<char>,
    source_hash: Seq<char>,
    command_hash: Seq<char>,
    env_hash: Seq<char>,
    is_release: bool,
    features_hash: Seq<char>,
) -> Seq<char> {
    name + "-"@ + source_hash.take(16) + "-"@ + command_hash + "-"@ + env_hash + "-"@ + (
    if is_release {
        "release"@
    } else {
        "debug"@
    }) + "-"@ + features_hash
}

impl CacheManager {
    /// Lays the cache directories out under the given base directory,
    /// appending the version segment that changes whenever the record
    /// schema does. Creating the directories on disk is the caller's task.
    pub fn new(base_dir: &str) -> (r: Self)
        ensures
            r.cache_dir@ == base_dir@ + "/"@ + "v4"@,
            r.incremental_dir@ == r.cache_dir@ + "/"@ + "incremental"@,
            r.metadata_dir@ == r.cache_dir@ + "/"@ + "metadata"@,
    {
        let cache_dir = join_path(base_dir, "v4");
        let incremental_dir = join_path(cache_dir.as_str(), "incremental");
        let metadata_dir = join_path(cache_dir.as_str(), "metadata");
        CacheManager { cache_dir, incremental_dir, metadata_dir }
    }

    /// Where the raw log of the build with this id lives.
    pub fn log_file_path(&self, cache_id: &str) -> (r: String)
        ensures
            r@ == self.cache_dir@ + "/"@ + cache_id@ + ".log"@,
    {
        let name = concat2(cache_id, ".log");
        let r = join_path(self.cache_dir.as_str(), name.as_str());
        proof {
            assert(self.cache_dir@ + "/"@ + (cache_id@ + ".log"@) =~= self.cache_dir@ + "/"@
                + cache_id@ + ".log"@);
        }
        r
    }

    /// Where the build record of the build with this id lives.
    pub fn metadata_file_path(&self, cache_id: &str) -> (r: String)
        ensures
            r@ == self.metadata_dir@ + "/"@ + cache_id@ + ".json"@,
    {
        let name = concat2(cache_id, ".json");
        let r = join_path(self.metadata_dir.as_str(), name.as_str());
        proof {
            assert(self.metadata_dir@ + "/"@ + (cache_id@ + ".json"@) =~= self.metadata_dir@ + "/"@
                + cache_id@ + ".json"@);
        }
        r
    }

    /// Where the incremental record filed under this composite key lives.
    pub fn record_file_path(&self, cache_key: &str) -> (r: String)
        ensures
            r@ == self.incremental_dir@ + "/"@ + cache_key@ + ".json"@,
    {
        let name = concat2(cache_key, ".json");
        let r = join_path(self.incremental_dir.as_str(), name.as_str());
        proof {
            assert(self.incremental_dir@ + "/"@ + (cache_key@ + ".json"@) =~= self.incremental_dir@
                + "/"@ + cache_key@ + ".json"@);
        }
        r
    }

    /// Renders the composite key for one package build.
    pub fn get_cache_key(
        &self,
        package: &PackageHash,
        command_hash: &str,
        env_hash: &str,
        is_release: bool,
        features_hash: &str,
    ) -> (r: String)
        requires
            package.source_hash@.len() >= 16,
        ensures
            r@ == composite_key(
                package.name@,
                package.source_hash@,
                command_hash@,
                env_hash@,
                is_release,
                features_hash@,
            ),
    {
        let short = str_take(package.source_hash.as_str(), 16);
        let mut s = concat2(package.name.as_str(), "-");
        s.append(short.as_str());
        s.append("-");
        s.append(command_hash);
        s.append("-");
        s.append(env_hash);
        s.append("-");
        if is_release {
            s.append("release");
        } else {
            s.append("debug");
        }
        s.append("-");
        s.append(features_hash);
        proof {
            assert(s@ =~= composite_key(
                package.name@,
                package.source_hash@,
                command_hash@,
                env_hash@,
                is_release,
                features_hash@,
            ));
        }
        s
    }

    /// Emits the cache key handed to CI systems: a fixed prefix, the
    /// platform, and the first 16 digits of the toolchain hash.
    pub fn generate_cache_key(&self, platform: &str, toolchain_hash: &str) -> (r: String)
        requires
            toolchain_hash@.len() >= 16,
        ensures
            r@ == "cargo-save-"@ + platform@ + "-"@ + toolchain_hash@.take(16),
    {
        let short = str_take(toolchain_hash, 16);
        let mut s = concat2("cargo-save-", platform);
        s.append("-");
        s.append(short.as_str());
        proof {
            assert(s@ =~= "cargo-save-"@ + platform@ + "-"@ + toolchain_hash@.take(16));
        }
        s
    }
}

/// Two composite keys built from the same hashes but different profiles
/// never collide: the profile segment starts at the same position in both
/// and begins with a different letter.
pub proof fn lemma_profile_distinguishes_key(
    name: Seq<char>,
    source_hash: Seq<char>,
    command_hash: Seq<char>,
    env_hash: Seq<char>,
    features_hash: Seq<char>,
)
    requires
        source_hash.len() >= 16,
    ensures
        composite_key(name, source_hash, command_hash, env_hash, true, features_hash)
            != composite_key(name, source_hash, command_hash, env_hash, false, features_hash),
{
    reveal_strlit("release");
    reveal_strlit("debug");
    reveal_strlit("-");
    let k1 = composite_key(name, source_hash, command_hash, env_hash, true, features_hash);
    let k2 = composite_key(name, source_hash, command_hash, env_hash, false, features_hash);
    let p: int = name.len() as int + 1 + 16 + 1 + command_hash.len() as int + 1 + env_hash.len()
        as int + 1;
    assert(k1[p] == 'r');
    assert(k2[p] == 'd');
}

/// The control directory of a linked worktree is not named `.git`: its
/// last path component decides whether the checkout is a worktree.
pub open spec fn spec_is_worktree_git_dir(git_dir: Seq<char>) -> bool {
    ({
        let parts = crate::strutil::split_seq(git_dir, seq!['/']);
        parts[parts.len() - 1] != ".git"@
    })
}

impl CacheManager {
    /// Whether a control directory path belongs to a linked worktree: its
    /// last path component is not the standard `.git` name.
    pub fn is_worktree_git_dir(&self, git_dir: &str) -> (r: bool)
        ensures
            r == spec_is_worktree_git_dir(git_dir@),
    {
        let mut seps: Vec<char> = Vec::new();
        seps.push('/');
        proof {
            assert(seps@ =~= seq!['/']);
        }
        let parts = crate::strutil::str_split(git_dir, &seps);
        proof {
            crate::strutil::lemma_split_accum_at_least_one(git_dir@, seq!['/'], Seq::empty());
            assert(parts.deep_view().len() == parts@.len());
            assert(parts.deep_view()[parts@.len() - 1] == parts@[parts@.len() - 1]@);
        }
        let last = &parts[parts.len() - 1];
        !crate::strutil::str_eq(last.as_str(), ".git")
    }
}

} // verus!

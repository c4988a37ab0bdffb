use vstd::prelude::*;

verus! {

/// Facts about the source-control repository that holds a package, gathered
/// by whoever probes the repository; every field is a plain value.
#[derive(Debug, Clone)]
pub struct GitRepoInfo {
    /// Whether the checkout is a linked worktree
    pub is_worktree: bool,
    /// Whether the clone is shallow
    pub is_shallow: bool,
    /// Whether the large-file extension is active
    pub has_lfs: bool,
    /// Whether sparse checkout is enabled
    pub is_sparse: bool,
    /// The control directory of the repository
    pub git_dir: String,
    /// The top-level directory of the worktree, when `is_worktree`
    pub worktree_root: Option<String>,
}

/// The repository capabilities recorded inside a workspace snapshot.
#[derive(Debug, Clone)]
pub struct GitFeaturesInfo {
    pub has_submodules: bool,
    pub is_sparse: bool,
    pub is_worktree: bool,
    pub has_lfs: bool,
    pub is_shallow: bool,
}

/// The fingerprint of one workspace package at one snapshot.
#[derive(Debug, Clone)]
pub struct PackageHash {
    pub name: String,
    pub version: String,
    /// The package's manifest directory
    pub path: String,
    /// Hex digest of the package's source inputs
    pub source_hash: String,
    /// Names of workspace-local dependencies
    pub dependencies: Vec<String>,
    /// Hex digest of the feature selection
    pub features_hash: String,
}

/// The mathematical value of a `PackageHash`: every field as a sequence.
pub struct PackageHashV {
    pub name: Seq<char>,
    pub version: Seq<char>,
    pub path: Seq<char>,
    pub source_hash: Seq<char>,
    pub dependencies: Seq<Seq<char>>,
    pub features_hash: Seq<char>,
}

impl View for PackageHash {
    type V = PackageHashV;

    open spec fn view(&self) -> PackageHashV {
        PackageHashV {
            name: self.name@,
            version: self.version@,
            path: self.path@,
            source_hash: self.source_hash@,
            dependencies: self.dependencies.deep_view(),
            features_hash: self.features_hash@,
        }
    }
}

impl DeepView for PackageHash {
    type V = PackageHashV;

    open spec fn deep_view(&self) -> PackageHashV {
        self.view()
    }
}

impl PackageHash {
    /// A deep copy whose mathematical value equals the original's.
    pub fn duplicate(&self) -> (r: Self)
        ensures
            r@ == self@,
    {
        let deps = self.dependencies.clone();
        proof {
            assert(deps.deep_view() =~= self.dependencies.deep_view());
        }
        let r = PackageHash {
            name: self.name.clone(),
            version: self.version.clone(),
            path: self.path.clone(),
            source_hash: self.source_hash.clone(),
            dependencies: deps,
            features_hash: self.features_hash.clone(),
        };
        r
    }
}

/// The identity of a whole workspace at one snapshot.
#[derive(Debug, Clone)]
pub struct WorkspaceState {
    pub root: String,
    pub packages: Vec<PackageHash>,
    pub cargo_lock_hash: String,
    pub toolchain_hash: String,
    pub timestamp: String,
    pub git_features: Option<GitFeaturesInfo>,
}

/// A persisted record of one successful build of one package under one
/// composite key; the key's fields are stored explicitly.
#[derive(Debug, Clone)]
pub struct IncrementalCache {
    pub package_name: String,
    pub package_version: String,
    pub source_hash: String,
    pub cargo_lock_hash: String,
    pub command_hash: String,
    pub env_hash: String,
    pub is_release: bool,
    pub features_hash: String,
    /// Every file attributed to the package, with the size it had when the
    /// record was written
    pub target_files: Vec<(String, u64)>,
    /// The linkable outputs among the attributed files
    pub artifact_paths: Vec<String>,
    pub timestamp: String,
    pub build_success: bool,
    pub duration_ms: u64,
}

/// A record of one invocation of the build tool across the workspace.
#[derive(Debug, Clone)]
pub struct BuildCache {
    pub cache_id: String,
    pub command: String,
    pub subcommand: String,
    pub args: Vec<String>,
    pub timestamp: String,
    /// Absent when the child was killed
    pub exit_code: Option<i32>,
    pub workspace_state: WorkspaceState,
    pub is_release: bool,
    pub target_dir: Option<String>,
    pub lines_count: usize,
    pub duration_ms: u64,
    pub env_hash: String,
}

/// One package's adjacency in the workspace dependency graph.
#[derive(Debug, Clone)]
pub struct PackageNode {
    pub name: String,
    pub dependencies: Vec<String>,
    pub reverse_dependencies: Vec<String>,
}

/// The mathematical value of a `PackageNode`.
pub struct PackageNodeV {
    pub name: Seq<char>,
    pub dependencies: Seq<Seq<char>>,
    pub reverse_dependencies: Seq<Seq<char>>,
}

impl View for PackageNode {
    type V = PackageNodeV;

    open spec fn view(&self) -> PackageNodeV {
        PackageNodeV {
            name: self.name@,
            dependencies: self.dependencies.deep_view(),
            reverse_dependencies: self.reverse_dependencies.deep_view(),
        }
    }
}

impl DeepView for PackageNode {
    type V = PackageNodeV;

    open spec fn deep_view(&self) -> PackageNodeV {
        self.view()
    }
}

/// Forward and reverse adjacency over the workspace packages, in snapshot
/// order; package names are the keys and are unique within a workspace.
#[derive(Debug, Clone)]
pub struct DependencyGraph {
    pub packages: Vec<PackageNode>,
}

/// A package has `name` among its declared workspace dependencies.
pub open spec fn has_dep(p: PackageHashV, name: Seq<char>) -> bool {
    exists|k: int| 0 <= k < p.dependencies.len() && #[trigger] p.dependencies[k] == name
}

/// All package names in the sequence are distinct.
pub open spec fn distinct_names(pkgs: Seq<PackageHashV>) -> bool {
    forall|i: int, j: int|
        0 <= i < pkgs.len() && 0 <= j < pkgs.len() && i != j ==> #[trigger] pkgs[i].name
            != #[trigger] pkgs[j].name
}

} // verus!

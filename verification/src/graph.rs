use vstd::prelude::*;

verus! {

use crate::manager::CacheManager;
use crate::model::DependencyGraph;
use crate::model::PackageHash;
use crate::model::PackageHashV;
use crate::model::PackageNode;
use crate::model::WorkspaceState;
use crate::model::distinct_names;
use crate::model::has_dep;
use crate::strutil::str_eq;

/// Membership of a package value in a produced list.
pub open spec fn in_list(rv: Seq<PackageHashV>, p: PackageHashV) -> bool {
    exists|k: int| 0 <= k < rv.len() && rv[k] == p
}

/// The names of the packages that declare a dependency on `name`, in
/// snapshot order.
pub open spec fn rev_dep_names(pkgs: Seq<PackageHashV>, name: Seq<char>) -> Seq<Seq<char>>
    decreases pkgs.len(),
{
    if pkgs.len() == 0 {
        Seq::empty()
    } else if has_dep(pkgs[0], name) {
        seq![pkgs[0].name] + rev_dep_names(pkgs.drop_first(), name)
    } else {
        rev_dep_names(pkgs.drop_first(), name)
    }
}

/// Package `i` must be rebuilt, shown by a chain of at most `fuel` forward
/// dependencies that ends at a package whose direct cache check failed.
pub open spec fn spec_invalidated(
    pkgs: Seq<PackageHashV>,
    cached: Seq<bool>,
    i: int,
    fuel: nat,
) -> bool
    decreases fuel,
{
    ||| !cached[i]
    ||| (fuel > 0 && exists|j: int|
        0 <= j < pkgs.len() && #[trigger] has_dep(pkgs[i], pkgs[j].name) && spec_invalidated(
            pkgs,
            cached,
            j,
            (fuel - 1) as nat,
        ))
}

/// Package `i` belongs to the changed set: some dependency chain from it
/// reaches a package whose direct cache check failed.
pub open spec fn spec_changed(pkgs: Seq<PackageHashV>, cached: Seq<bool>, i: int) -> bool {
    exists|fuel: nat| spec_invalidated(pkgs, cached, i, fuel)
}

/// The packages whose direct cache check failed, in snapshot order, from
/// position `i` onward.
pub open spec fn direct_from(pkgs: Seq<PackageHashV>, cached: Seq<bool>, i: int) -> Seq<
    PackageHashV,
>
    decreases pkgs.len() - i
        when 0 <= i <= pkgs.len()
{
    if i >= pkgs.len() {
        Seq::empty()
    } else if !cached[i] {
        seq![pkgs[i]] + direct_from(pkgs, cached, i + 1)
    } else {
        direct_from(pkgs, cached, i + 1)
    }
}

pub open spec fn count_marked(m: Seq<bool>) -> int
    decreases m.len(),
{
    if m.len() == 0 {
        0
    } else {
        (if m[0] {
            1int
        } else {
            0int
        }) + count_marked(m.drop_first())
    }
}

proof fn lemma_count_marked_le_len(m: Seq<bool>)
    ensures
        count_marked(m) <= m.len(),
        count_marked(m) >= 0,
    decreases m.len(),
{
    if m.len() > 0 {
        lemma_count_marked_le_len(m.drop_first());
    }
}

pub proof fn lemma_count_marked_update(m: Seq<bool>, i: int)
    requires
        0 <= i < m.len(),
        !m[i],
    ensures
        count_marked(m.update(i, true)) == count_marked(m) + 1,
    decreases m.len(),
{
    let u = m.update(i, true);
    if i == 0 {
        assert(u.drop_first() =~= m.drop_first());
    } else {
        assert(u.drop_first() =~= m.drop_first().update(i - 1, true));
        lemma_count_marked_update(m.drop_first(), i - 1);
    }
}

/// `p` is one of the packages whose mark is set.
pub open spec fn placed_one(pkgs: Seq<PackageHashV>, marked: Seq<bool>, p: PackageHashV) -> bool {
    exists|i: int| 0 <= i < marked.len() && marked[i] && p == #[trigger] pkgs[i]
}

/// Every element of `rv` is one of the packages whose mark is set.
pub open spec fn placed_from(
    pkgs: Seq<PackageHashV>,
    rv: Seq<PackageHashV>,
    marked: Seq<bool>,
) -> bool {
    forall|k: int| 0 <= k < rv.len() ==> #[trigger] placed_one(pkgs, marked, rv[k])
}

/// A mark appended for a package not placed in `rv` leaves the placement
/// property intact.
proof fn lemma_placed_extend(
    pkgs: Seq<PackageHashV>,
    rv: Seq<PackageHashV>,
    marked: Seq<bool>,
    b: bool,
)
    requires
        placed_from(pkgs, rv, marked),
    ensures
        placed_from(pkgs, rv, marked.push(b)),
{
    let m2 = marked.push(b);
    assert forall|k: int| 0 <= k < rv.len() implies #[trigger] placed_one(pkgs, m2, rv[k]) by {
        assert(placed_one(pkgs, marked, rv[k]));
        let i = choose|i: int|
            0 <= i < marked.len() && marked[i] && rv[k] == #[trigger] pkgs[i];
        assert(m2[i] && rv[k] == pkgs[i]);
    }
}

/// Placing the package whose mark is being set keeps the placement
/// property.
proof fn lemma_placed_push(
    pkgs: Seq<PackageHashV>,
    rv: Seq<PackageHashV>,
    marked: Seq<bool>,
    p: PackageHashV,
)
    requires
        placed_from(pkgs, rv, marked),
        marked.len() < pkgs.len(),
        p == pkgs[marked.len() as int],
    ensures
        placed_from(pkgs, rv.push(p), marked.push(true)),
{
    let rv2 = rv.push(p);
    let m2 = marked.push(true);
    assert forall|k: int| 0 <= k < rv2.len() implies #[trigger] placed_one(pkgs, m2, rv2[k]) by {
        if k < rv.len() {
            assert(placed_one(pkgs, marked, rv[k]));
            let i = choose|i: int|
                0 <= i < marked.len() && marked[i] && rv[k] == #[trigger] pkgs[i];
            assert(m2[i] && rv2[k] == pkgs[i]);
        } else {
            assert(m2[marked.len() as int] && rv2[k] == pkgs[marked.len() as int]);
        }
    }
}

/// The rolling state of the changed-set computation: `marked` records which
/// packages have been placed in `rv`, every placed package is justified,
/// and no name appears twice.
pub open spec fn changed_inv(
    pkgs: Seq<PackageHashV>,
    cached: Seq<bool>,
    rv: Seq<PackageHashV>,
    marked: Seq<bool>,
) -> bool {
    &&& marked.len() == pkgs.len()
    &&& rv.len() == count_marked(marked)
    &&& placed_from(pkgs, rv, marked)
    &&& (forall|i: int| 0 <= i < pkgs.len() && #[trigger] marked[i] ==> in_list(rv, pkgs[i]))
    &&& (forall|i: int|
        0 <= i < pkgs.len() && #[trigger] marked[i] ==> spec_changed(pkgs, cached, i))
    &&& (forall|k1: int, k2: int|
        0 <= k1 < rv.len() && 0 <= k2 < rv.len() && k1 != k2 ==> #[trigger] rv[k1].name
            != #[trigger] rv[k2].name)
}

/// At a fixpoint of the propagation pass, every justified package is
/// already marked.
proof fn lemma_fixpoint_complete(
    pkgs: Seq<PackageHashV>,
    cached: Seq<bool>,
    marked: Seq<bool>,
    i: int,
    fuel: nat,
)
    requires
        marked.len() == pkgs.len(),
        cached.len() == pkgs.len(),
        forall|i2: int| 0 <= i2 < pkgs.len() && !cached[i2] ==> #[trigger] marked[i2],
        forall|i2: int|
            0 <= i2 < pkgs.len() && !#[trigger] marked[i2] ==> !exists|j: int|
                0 <= j < pkgs.len() && marked[j] && #[trigger] has_dep(pkgs[i2], pkgs[j].name),
        0 <= i < pkgs.len(),
        spec_invalidated(pkgs, cached, i, fuel),
    ensures
        marked[i],
    decreases fuel,
{
    if !cached[i] {
    } else {
        let j = choose|j: int|
            0 <= j < pkgs.len() && #[trigger] has_dep(pkgs[i], pkgs[j].name) && spec_invalidated(
                pkgs,
                cached,
                j,
                (fuel - 1) as nat,
            );
        lemma_fixpoint_complete(pkgs, cached, marked, j, (fuel - 1) as nat);
        if !marked[i] {
            assert(has_dep(pkgs[i], pkgs[j].name) && marked[j]);
            assert(false);
        }
    }
}

/// Whether `name` occurs in a list of owned names.
pub open spec fn contains_name(names: Seq<Seq<char>>, name: Seq<char>) -> bool {
    exists|k: int| 0 <= k < names.len() && #[trigger] names[k] == name
}

pub(crate) fn vec_contains_str(v: &Vec<String>, name: &str) -> (r: bool)
    ensures
        r == contains_name(v.deep_view(), name@),
{
    let ghost nv = v.deep_view();
    let mut k: usize = 0;
    while k < v.len()
        invariant
            nv == v.deep_view(),
            nv.len() == v@.len(),
            k <= v@.len(),
            forall|j: int| 0 <= j < k ==> #[trigger] nv[j] != name@,
        decreases v@.len() - k,
    {
        proof {
            assert(nv[k as int] == v@[k as int]@);
        }
        if str_eq(v[k].as_str(), name) {
            return true;
        }
        k = k + 1;
    }
    false
}

/// Some package with a set mark is among this package's declared
/// dependencies.
fn any_marked_dep(pkg: &PackageHash, packages: &Vec<PackageHash>, marked: &Vec<bool>) -> (r: bool)
    requires
        marked@.len() == packages@.len(),
    ensures
        r == exists|j: int|
            0 <= j < packages.deep_view().len() && marked@[j] && #[trigger] has_dep(
                pkg@,
                packages.deep_view()[j].name,
            ),
{
    let ghost pkgs = packages.deep_view();
    let mut j: usize = 0;
    while j < packages.len()
        invariant
            pkgs == packages.deep_view(),
            pkgs.len() == packages@.len(),
            marked@.len() == packages@.len(),
            j <= packages@.len(),
            forall|j2: int|
                0 <= j2 < j ==> !(marked@[j2] && #[trigger] has_dep(pkg@, pkgs[j2].name)),
        decreases packages@.len() - j,
    {
        proof {
            assert(pkgs[j as int] == packages@[j as int]@);
        }
        if marked[j] {
            if vec_contains_str(&pkg.dependencies, packages[j].name.as_str()) {
                proof {
                    assert(pkg.dependencies.deep_view() == pkg@.dependencies);
                    let dn = pkg.dependencies.deep_view();
                    let k = choose|k: int|
                        0 <= k < dn.len() && #[trigger] dn[k] == packages@[j as int].name@;
                    assert(pkg@.dependencies[k] == pkgs[j as int].name);
                    assert(marked@[j as int] && has_dep(pkg@, pkgs[j as int].name));
                }
                return true;
            }
            proof {
                if has_dep(pkg@, pkgs[j as int].name) {
                    let k = choose|k: int|
                        0 <= k < pkg@.dependencies.len() && #[trigger] pkg@.dependencies[k]
                            == pkgs[j as int].name;
                    assert(pkg.dependencies.deep_view()[k] == packages@[j as int].name@);
                    assert(false);
                }
            }
        }
        j = j + 1;
    }
    false
}

impl CacheManager {
    /// Builds forward and reverse adjacency over the workspace packages, in
    /// snapshot order: a package's forward edges are its declared
    /// workspace dependencies, and its reverse edges are the names of the
    /// packages that declare it.
    pub fn build_dependency_graph(&self, workspace_state: &WorkspaceState) -> (r: DependencyGraph)
        ensures
            r.packages.deep_view().len() == workspace_state.packages.deep_view().len(),
            forall|i: int|
                0 <= i < r.packages.deep_view().len() ==> {
                    let node = #[trigger] r.packages.deep_view()[i];
                    let pkgs = workspace_state.packages.deep_view();
                    node.name == pkgs[i].name && node.dependencies == pkgs[i].dependencies
                        && node.reverse_dependencies == rev_dep_names(pkgs, pkgs[i].name)
                },
    {
        let ghost pkgs = workspace_state.packages.deep_view();
        let mut nodes: Vec<PackageNode> = Vec::new();
        let mut i: usize = 0;
        while i < workspace_state.packages.len()
            invariant
                pkgs == workspace_state.packages.deep_view(),
                pkgs.len() == workspace_state.packages@.len(),
                i <= pkgs.len(),
                nodes.deep_view().len() == i,
                forall|i2: int|
                    0 <= i2 < i ==> {
                        let node = #[trigger] nodes.deep_view()[i2];
                        node.name == pkgs[i2].name && node.dependencies == pkgs[i2].dependencies
                            && node.reverse_dependencies == rev_dep_names(pkgs, pkgs[i2].name)
                    },
            decreases pkgs.len() - i,
        {
            let package = &workspace_state.packages[i];
            proof {
                assert(pkgs[i as int] == workspace_state.packages@[i as int]@);
            }
            let reverse_deps = collect_rev_deps(&workspace_state.packages, package.name.as_str());
            let deps = package.dependencies.clone();
            proof {
                assert(deps.deep_view() =~= package.dependencies.deep_view());
            }
            let node = PackageNode {
                name: package.name.clone(),
                dependencies: deps,
                reverse_dependencies: reverse_deps,
            };
            let ghost prev = nodes.deep_view();
            let ghost nodev = node@;
            nodes.push(node);
            proof {
                assert(nodes.deep_view() =~= prev.push(nodev));
                assert(nodev.name == pkgs[i as int].name);
                assert(nodev.dependencies == pkgs[i as int].dependencies);
                assert(nodev.reverse_dependencies == rev_dep_names(pkgs, pkgs[i as int].name));
            }
            i = i + 1;
        }
        DependencyGraph { packages: nodes }
    }

    /// Keeps, in declaration order, the declared dependencies that are
    /// workspace members themselves; only those take part in transitive
    /// invalidation.
    pub fn workspace_deps(&self, dep_names: &Vec<String>, member_names: &Vec<String>) -> (r: Vec<
        String,
    >)
        ensures
            r.deep_view() == member_filter(dep_names.deep_view(), member_names.deep_view()),
    {
        let ghost dv = dep_names.deep_view();
        let ghost mv = member_names.deep_view();
        let mut out: Vec<String> = Vec::new();
        let mut k: usize = 0;
        proof {
            assert(dv.skip(0) =~= dv);
            assert(out.deep_view() + member_filter(dv, mv) =~= member_filter(dv, mv));
        }
        while k < dep_names.len()
            invariant
                dv == dep_names.deep_view(),
                mv == member_names.deep_view(),
                dv.len() == dep_names@.len(),
                k <= dep_names@.len(),
                member_filter(dv, mv) == out.deep_view() + member_filter(dv.skip(k as int), mv),
            decreases dep_names@.len() - k,
        {
            let ghost tail = dv.skip(k as int);
            let ghost prev = out.deep_view();
            proof {
                assert(tail.len() > 0);
                assert(tail[0] == dv[k as int]);
                assert(tail.drop_first() =~= dv.skip(k as int + 1));
                assert(dv[k as int] == dep_names@[k as int]@);
            }
            if vec_contains_str(member_names, dep_names[k].as_str()) {
                out.push(dep_names[k].clone());
                proof {
                    assert(out.deep_view() =~= prev.push(dv[k as int]));
                    assert(prev.push(dv[k as int]) + member_filter(dv.skip(k as int + 1), mv)
                        =~= prev + (seq![dv[k as int]] + member_filter(dv.skip(k as int + 1), mv)));
                }
            }
            k = k + 1;
        }
        proof {
            assert(dv.skip(dv.len() as int).len() == 0);
            assert(out.deep_view() + Seq::<Seq<char>>::empty() =~= out.deep_view());
        }
        out
    }

    /// Computes the ordered changed set: first every package whose direct
    /// cache check failed, in snapshot order, then every package that
    /// transitively depends on one of those, wave by wave. A package is in
    /// the result exactly when a chain of forward dependencies from it
    /// reaches a directly changed package.
    pub fn get_changed_packages(&self, workspace_state: &WorkspaceState, cached: &Vec<bool>) -> (r:
        Vec<PackageHash>)
        requires
            cached@.len() == workspace_state.packages@.len(),
            distinct_names(workspace_state.packages.deep_view()),
        ensures
            ({
                let pkgs = workspace_state.packages.deep_view();
                let rv = r.deep_view();
                &&& (forall|k: int| 0 <= k < rv.len() ==> #[trigger] in_list(pkgs, rv[k]))
                &&& (forall|i: int|
                    0 <= i < pkgs.len() ==> (in_list(rv, #[trigger] pkgs[i]) <==> spec_changed(
                        pkgs,
                        cached@,
                        i,
                    )))
                &&& (forall|k1: int, k2: int|
                    0 <= k1 < rv.len() && 0 <= k2 < rv.len() && k1 != k2 ==> #[trigger] rv[k1].name
                        != #[trigger] rv[k2].name)
                &&& rv.len() >= direct_from(pkgs, cached@, 0).len()
                &&& rv.take(direct_from(pkgs, cached@, 0).len() as int) == direct_from(
                    pkgs,
                    cached@,
                    0,
                )
            }),
    {
        let ghost pkgs = workspace_state.packages.deep_view();
        let n = workspace_state.packages.len();
        let mut changed: Vec<PackageHash> = Vec::new();
        let mut marked: Vec<bool> = Vec::new();
        let mut i: usize = 0;
        // Direct pass: every package whose cache check failed enters the
        // set, in snapshot order.
        while i < n
            invariant
                pkgs == workspace_state.packages.deep_view(),
                pkgs.len() == n,
                cached@.len() == n,
                distinct_names(pkgs),
                i <= n,
                marked@.len() == i,
                forall|j: int| 0 <= j < i ==> #[trigger] marked@[j] == !cached@[j],
                changed.deep_view().len() == count_marked(marked@),
                direct_from(pkgs, cached@, 0) == changed.deep_view() + direct_from(
                    pkgs,
                    cached@,
                    i as int,
                ),
                placed_from(pkgs, changed.deep_view(), marked@),
                forall|k1: int, k2: int|
                    0 <= k1 < changed.deep_view().len() && 0 <= k2 < changed.deep_view().len()
                        && k1 != k2 ==> #[trigger] changed.deep_view()[k1].name
                        != #[trigger] changed.deep_view()[k2].name,
            decreases n - i,
        {
            let ghost dv = changed.deep_view();
            let ghost m0 = marked@;
            proof {
                assert(pkgs[i as int] == workspace_state.packages@[i as int]@);
                assert(count_marked(m0.push(!cached@[i as int])) == count_marked(m0) + (
                if !cached@[i as int] {
                    1int
                } else {
                    0int
                })) by {
                    lemma_count_push(m0, !cached@[i as int]);
                }
            }
            if !cached[i] {
                let dup = workspace_state.packages[i].duplicate();
                changed.push(dup);
                marked.push(true);
                proof {
                    assert(changed.deep_view() =~= dv.push(pkgs[i as int]));
                    assert(direct_from(pkgs, cached@, i as int) == seq![pkgs[i as int]]
                        + direct_from(pkgs, cached@, i as int + 1));
                    assert(dv.push(pkgs[i as int]) + direct_from(pkgs, cached@, i as int + 1) =~= dv
                        + direct_from(pkgs, cached@, i as int));
                    let ghost cur = pkgs[i as int];
                    assert forall|k: int| 0 <= k < dv.len() implies dv[k].name != cur.name by {
                        assert(placed_one(pkgs, m0, dv[k]));
                        let i2 = choose|i2: int|
                            0 <= i2 < m0.len() && m0[i2] && dv[k] == #[trigger] pkgs[i2];
                        assert(pkgs[i2].name != pkgs[i as int].name);
                    }
                    lemma_placed_push(pkgs, dv, m0, pkgs[i as int]);
                    assert(changed.deep_view() == dv.push(pkgs[i as int]));
                    assert(marked@ == m0.push(true));
                    assert(placed_from(pkgs, changed.deep_view(), marked@));
                }
            } else {
                marked.push(false);
                proof {
                    lemma_placed_extend(pkgs, dv, m0, false);
                    assert(changed.deep_view() == dv);
                    assert(marked@ == m0.push(false));
                    assert(placed_from(pkgs, changed.deep_view(), marked@));
                }
            }
            i = i + 1;
        }
        let ghost direct = direct_from(pkgs, cached@, 0);
        proof {
            assert(direct_from(pkgs, cached@, n as int).len() == 0);
            assert(changed.deep_view() =~= direct);
            assert forall|j: int| 0 <= j < n && #[trigger] marked@[j] implies in_list(
                changed.deep_view(),
                pkgs[j],
            ) && spec_changed(pkgs, cached@, j) by {
                assert(!cached@[j]);
                assert(spec_invalidated(pkgs, cached@, j, 0));
                lemma_direct_from_contains(pkgs, cached@, 0, j);
            }
            assert(changed_inv(pkgs, cached@, changed.deep_view(), marked@));
            lemma_count_marked_le_len(marked@);
        }
        // Propagation passes: a package joins as soon as one of its
        // forward dependencies is in the set; stop at the first pass that
        // adds nothing.
        let mut again = true;
        while again
            invariant
                pkgs == workspace_state.packages.deep_view(),
                pkgs.len() == n,
                cached@.len() == n,
                distinct_names(pkgs),
                marked@.len() == n,
                changed@.len() <= n,
                changed_inv(pkgs, cached@, changed.deep_view(), marked@),
                forall|j: int| 0 <= j < n && !cached@[j] ==> #[trigger] marked@[j],
                changed.deep_view().len() >= direct.len(),
                changed.deep_view().take(direct.len() as int) == direct,
                direct == direct_from(pkgs, cached@, 0),
                !again ==> (forall|i2: int|
                    0 <= i2 < n && !#[trigger] marked@[i2] ==> !exists|j: int|
                        0 <= j < n && marked@[j] && #[trigger] has_dep(pkgs[i2], pkgs[j].name)),
            decreases 2 * (n - changed@.len()) + 1 + (if again {
                1int
            } else {
                0int
            }),
        {
            let ghost count0 = changed@.len() as int;
            let mut added = false;
            let mut i2: usize = 0;
            while i2 < n
                invariant
                    pkgs == workspace_state.packages.deep_view(),
                    pkgs.len() == n,
                    cached@.len() == n,
                    distinct_names(pkgs),
                    marked@.len() == n,
                    changed@.len() <= n,
                    i2 <= n,
                    changed_inv(pkgs, cached@, changed.deep_view(), marked@),
                    forall|j: int| 0 <= j < n && !cached@[j] ==> #[trigger] marked@[j],
                    changed.deep_view().len() >= direct.len(),
                    changed.deep_view().take(direct.len() as int) == direct,
                    added ==> changed@.len() > count0,
                    !added ==> changed@.len() == count0,
                    !added ==> (forall|i3: int|
                        0 <= i3 < i2 && !#[trigger] marked@[i3] ==> !exists|j: int|
                            0 <= j < n && marked@[j] && #[trigger] has_dep(
                                pkgs[i3],
                                pkgs[j].name,
                            )),
                decreases n - i2,
            {
                proof {
                    assert(pkgs[i2 as int] == workspace_state.packages@[i2 as int]@);
                }
                if !marked[i2] {
                    let pkg = &workspace_state.packages[i2];
                    if any_marked_dep(pkg, &workspace_state.packages, &marked) {
                        let ghost dv = changed.deep_view();
                        proof {
                            let j = choose|j: int|
                                0 <= j < pkgs.len() && marked@[j] && #[trigger] has_dep(
                                    pkgs[i2 as int],
                                    pkgs[j].name,
                                );
                            let fj = choose|f: nat| spec_invalidated(pkgs, cached@, j, f);
                            assert(spec_invalidated(pkgs, cached@, i2 as int, fj + 1));
                            lemma_count_marked_update(marked@, i2 as int);
                            lemma_count_marked_le_len(marked@);
                        }
                        let ghost m0 = marked@;
                        let dup = workspace_state.packages[i2].duplicate();
                        changed.push(dup);
                        marked[i2] = true;
                        added = true;
                        proof {
                            assert(changed.deep_view() =~= dv.push(pkgs[i2 as int]));
                            assert(changed.deep_view().take(direct.len() as int) =~= dv.take(
                                direct.len() as int,
                            ));
                            lemma_push_keeps_inv(pkgs, cached@, dv, m0, i2 as int);
                            assert(marked@ == m0.update(i2 as int, true));
                            lemma_count_marked_le_len(marked@);
                        }
                    }
                }
                i2 = i2 + 1;
            }
            if !added {
                again = false;
            }
            proof {
                lemma_count_marked_le_len(marked@);
            }
        }
        proof {
            assert(forall|i3: int|
                0 <= i3 < n && #[trigger] spec_changed(pkgs, cached@, i3) ==> marked@[i3]) by {
                assert forall|i3: int|
                    0 <= i3 < n && #[trigger] spec_changed(pkgs, cached@, i3) implies marked@[i3] by {
                    let fuel = choose|f: nat| spec_invalidated(pkgs, cached@, i3, f);
                    lemma_fixpoint_complete(pkgs, cached@, marked@, i3, fuel);
                }
            }
            assert(forall|i3: int|
                0 <= i3 < n && in_list(changed.deep_view(), #[trigger] pkgs[i3])
                    ==> marked@[i3]) by {
                assert forall|i3: int|
                    0 <= i3 < n && in_list(changed.deep_view(), #[trigger] pkgs[i3])
                    implies marked@[i3] by {
                    let rv = changed.deep_view();
                    let k = choose|k: int| 0 <= k < rv.len() && rv[k] == pkgs[i3];
                    assert(placed_one(pkgs, marked@, rv[k]));
                    let i4 = choose|i4: int|
                        0 <= i4 < marked@.len() && marked@[i4] && rv[k] == #[trigger] pkgs[i4];
                    if i4 != i3 {
                        assert(pkgs[i4].name == pkgs[i3].name);
                        assert(false);
                    }
                }
            }
            let rv = changed.deep_view();
            assert forall|i3: int| 0 <= i3 < pkgs.len() implies (in_list(
                rv,
                #[trigger] pkgs[i3],
            ) <==> spec_changed(pkgs, cached@, i3)) by {
                if in_list(rv, pkgs[i3]) {
                    assert(marked@[i3]);
                    assert(spec_changed(pkgs, cached@, i3));
                }
                if spec_changed(pkgs, cached@, i3) {
                    assert(marked@[i3]);
                    assert(in_list(rv, pkgs[i3]));
                }
            }
            assert forall|k: int| 0 <= k < rv.len() implies #[trigger] in_list(pkgs, rv[k]) by {
                assert(placed_one(pkgs, marked@, rv[k]));
                let i4 = choose|i4: int|
                    0 <= i4 < marked@.len() && marked@[i4] && rv[k] == #[trigger] pkgs[i4];
                assert(0 <= i4 < pkgs.len() && pkgs[i4] == rv[k]);
            }
        }
        changed
    }
}

proof fn lemma_count_push(m: Seq<bool>, b: bool)
    ensures
        count_marked(m.push(b)) == count_marked(m) + (if b {
            1int
        } else {
            0int
        }),
    decreases m.len(),
{
    reveal_with_fuel(count_marked, 3);
    if m.len() == 0 {
        assert(m.push(b)[0] == b);
        assert(m.push(b).drop_first() =~= Seq::<bool>::empty());
        assert(count_marked(Seq::<bool>::empty()) == 0);
    } else {
        assert(m.push(b)[0] == m[0]);
        assert(m.push(b).drop_first() =~= m.drop_first().push(b));
        lemma_count_push(m.drop_first(), b);
    }
}

/// Every package whose direct check failed appears in the direct pass's
/// output.
proof fn lemma_direct_from_contains(pkgs: Seq<PackageHashV>, cached: Seq<bool>, a: int, j: int)
    requires
        0 <= a <= j < pkgs.len(),
        !cached[j],
    ensures
        in_list(direct_from(pkgs, cached, a), pkgs[j]),
    decreases j - a,
{
    let d = direct_from(pkgs, cached, a);
    if a == j {
        assert(d[0] == pkgs[j]);
    } else {
        lemma_direct_from_contains(pkgs, cached, a + 1, j);
        let d2 = direct_from(pkgs, cached, a + 1);
        let k = choose|k: int| 0 <= k < d2.len() && d2[k] == pkgs[j];
        if !cached[a] {
            assert(d[k + 1] == pkgs[j]);
        } else {
            assert(d[k] == pkgs[j]);
        }
    }
}

/// Pushing a newly justified, unmarked package preserves the rolling
/// invariant.
proof fn lemma_push_keeps_inv(
    pkgs: Seq<PackageHashV>,
    cached: Seq<bool>,
    rv: Seq<PackageHashV>,
    marked: Seq<bool>,
    i: int,
)
    requires
        changed_inv(pkgs, cached, rv, marked),
        distinct_names(pkgs),
        0 <= i < pkgs.len(),
        !marked[i],
        spec_changed(pkgs, cached, i),
    ensures
        changed_inv(pkgs, cached, rv.push(pkgs[i]), marked.update(i, true)),
{
    let rv2 = rv.push(pkgs[i]);
    let m2 = marked.update(i, true);
    lemma_count_marked_update(marked, i);
    assert(forall|k: int| 0 <= k < rv.len() ==> #[trigger] rv2[k] == rv[k]);
    assert(rv2[rv.len() as int] == pkgs[i]);
    assert forall|k: int| 0 <= k < rv2.len() implies #[trigger] placed_one(pkgs, m2, rv2[k]) by {
        if k < rv.len() {
            assert(placed_one(pkgs, marked, rv[k]));
            let i2 = choose|i2: int|
                0 <= i2 < marked.len() && marked[i2] && rv[k] == #[trigger] pkgs[i2];
            assert(m2[i2] && rv2[k] == pkgs[i2]);
        } else {
            assert(m2[i] && rv2[k] == pkgs[i]);
        }
    }
    assert(placed_from(pkgs, rv2, m2));
    assert forall|i2: int| 0 <= i2 < pkgs.len() && #[trigger] m2[i2] implies in_list(
        rv2,
        pkgs[i2],
    ) && spec_changed(pkgs, cached, i2) by {
        if i2 == i {
            assert(rv2[rv.len() as int] == pkgs[i2]);
        } else {
            assert(marked[i2]);
            assert(in_list(rv, pkgs[i2]));
            let k = choose|k: int| 0 <= k < rv.len() && rv[k] == pkgs[i2];
            assert(rv2[k] == pkgs[i2]);
        }
    }
    assert forall|k1: int, k2: int|
        0 <= k1 < rv2.len() && 0 <= k2 < rv2.len() && k1 != k2 implies #[trigger] rv2[k1].name
        != #[trigger] rv2[k2].name by {
        if k1 < rv.len() && k2 < rv.len() {
        } else if k1 < rv.len() || k2 < rv.len() {
            let kold = if k1 < rv.len() {
                k1
            } else {
                k2
            };
            assert(placed_one(pkgs, marked, rv[kold]));
            let i2 = choose|i2: int|
                0 <= i2 < marked.len() && marked[i2] && rv[kold] == #[trigger] pkgs[i2];
            assert(i2 != i);
            assert(pkgs[i2].name != pkgs[i].name);
            assert(rv2[kold].name == pkgs[i2].name);
        }
    }
}

/// Collects, in snapshot order, the names of the packages that declare a
/// dependency on `name`.
fn collect_rev_deps(packages: &Vec<PackageHash>, name: &str) -> (r: Vec<String>)
    ensures
        r.deep_view() == rev_dep_names(packages.deep_view(), name@),
{
    let ghost pkgs = packages.deep_view();
    let mut out: Vec<String> = Vec::new();
    let mut j: usize = 0;
    proof {
        assert(pkgs.skip(0) =~= pkgs);
        assert(out.deep_view() + rev_dep_names(pkgs, name@) =~= rev_dep_names(pkgs, name@));
    }
    while j < packages.len()
        invariant
            pkgs == packages.deep_view(),
            pkgs.len() == packages@.len(),
            j <= packages@.len(),
            rev_dep_names(pkgs, name@) == out.deep_view() + rev_dep_names(
                pkgs.skip(j as int),
                name@,
            ),
        decreases packages@.len() - j,
    {
        let ghost dv = out.deep_view();
        let ghost tail = pkgs.skip(j as int);
        proof {
            assert(tail.len() > 0);
            assert(tail[0] == pkgs[j as int]);
            assert(tail.drop_first() =~= pkgs.skip(j as int + 1));
            assert(pkgs[j as int] == packages@[j as int]@);
        }
        if vec_contains_str(&packages[j].dependencies, name) {
            proof {
                let dn = packages@[j as int].dependencies.deep_view();
                let k = choose|k: int| 0 <= k < dn.len() && #[trigger] dn[k] == name@;
                assert(pkgs[j as int].dependencies[k] == name@);
                assert(has_dep(pkgs[j as int], name@));
            }
            out.push(packages[j].name.clone());
            proof {
                assert(out.deep_view() =~= dv.push(pkgs[j as int].name));
                assert(dv.push(pkgs[j as int].name) + rev_dep_names(pkgs.skip(j as int + 1), name@)
                    =~= dv + (seq![pkgs[j as int].name] + rev_dep_names(
                    pkgs.skip(j as int + 1),
                    name@,
                )));
            }
        } else {
            proof {
                if has_dep(pkgs[j as int], name@) {
                    let k = choose|k: int|
                        0 <= k < pkgs[j as int].dependencies.len()
                            && #[trigger] pkgs[j as int].dependencies[k] == name@;
                    assert(packages@[j as int].dependencies.deep_view()[k] == name@);
                    assert(false);
                }
            }
        }
        j = j + 1;
    }
    proof {
        assert(pkgs.skip(pkgs.len() as int).len() == 0);
        assert(out.deep_view() + Seq::<Seq<char>>::empty() =~= out.deep_view());
    }
    out
}

/// The declared dependency names that are themselves workspace members,
/// in declaration order.
pub open spec fn member_filter(deps: Seq<Seq<char>>, members: Seq<Seq<char>>) -> Seq<Seq<char>>
    decreases deps.len(),
{
    if deps.len() == 0 {
        Seq::empty()
    } else {
        (if contains_name(members, deps[0]) {
            seq![deps[0]]
        } else {
            Seq::empty()
        }) + member_filter(deps.drop_first(), members)
    }
}

/// A package whose direct cache check failed is in the changed set.
pub proof fn lemma_direct_miss_changed(pkgs: Seq<PackageHashV>, cached: Seq<bool>, i: int)
    requires
        !cached[i],
    ensures
        spec_changed(pkgs, cached, i),
{
    assert(spec_invalidated(pkgs, cached, i, 0));
}

/// When every package's direct check fails — as after a lockfile or
/// environment change, whose stored hashes no record matches — the whole
/// workspace is in the changed set.
pub proof fn lemma_all_direct_all_changed(pkgs: Seq<PackageHashV>, cached: Seq<bool>)
    requires
        forall|i: int| 0 <= i < pkgs.len() ==> !(#[trigger] cached[i]),
    ensures
        forall|i: int| 0 <= i < pkgs.len() ==> #[trigger] spec_changed(pkgs, cached, i),
{
    assert forall|i: int| 0 <= i < pkgs.len() implies #[trigger] spec_changed(
        pkgs,
        cached,
        i,
    ) by {
        assert(spec_invalidated(pkgs, cached, i, 0));
    }
}

/// Invalidation propagates along declared dependencies: when one of a
/// package's dependencies is in the changed set, the package is too.
pub proof fn lemma_dependency_invalidates(
    pkgs: Seq<PackageHashV>,
    cached: Seq<bool>,
    i: int,
    j: int,
)
    requires
        0 <= i < pkgs.len(),
        0 <= j < pkgs.len(),
        has_dep(pkgs[i], pkgs[j].name),
        spec_changed(pkgs, cached, j),
    ensures
        spec_changed(pkgs, cached, i),
{
    let f = choose|f: nat| spec_invalidated(pkgs, cached, j, f);
    assert(spec_invalidated(pkgs, cached, i, f + 1));
}

/// A cache hit stays a hit: a package whose own record is intact and none
/// of whose declared dependencies is invalidated stays out of the changed
/// set.
pub proof fn lemma_cached_with_cached_deps_not_changed(
    pkgs: Seq<PackageHashV>,
    cached: Seq<bool>,
    i: int,
)
    requires
        0 <= i < pkgs.len(),
        cached[i],
        forall|j: int|
            0 <= j < pkgs.len() && #[trigger] has_dep(pkgs[i], pkgs[j].name) ==> !spec_changed(
                pkgs,
                cached,
                j,
            ),
    ensures
        !spec_changed(pkgs, cached, i),
{
    if spec_changed(pkgs, cached, i) {
        let fuel = choose|f: nat| spec_invalidated(pkgs, cached, i, f);
        let j = choose|j: int|
            0 <= j < pkgs.len() && #[trigger] has_dep(pkgs[i], pkgs[j].name) && spec_invalidated(
                pkgs,
                cached,
                j,
                (fuel - 1) as nat,
            );
        assert(spec_changed(pkgs, cached, j));
        assert(false);
    }
}

} // verus!

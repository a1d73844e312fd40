//! Project discovery over a modelled directory tree.
//!
//! The file system is presented to the library as a [`DirTree`] value: each
//! node records its directory name, whether the directory contains a project
//! manifest, whether its entries could be listed, and its subdirectories.
//! Discovery returns the project-root paths as sequences of directory names
//! relative to the scanned root (the empty sequence names the root itself).

use vstd::prelude::*;

use crate::text::clone_string_vec;

verus! {

/// A directory in the tree handed to discovery.
#[derive(Debug)]
pub struct DirTree {
    /// The directory's own name (the last path component).
    pub name: String,
    /// Whether the directory contains a project manifest file.
    pub has_manifest: bool,
    /// Whether the directory's entries could be listed; an unreadable
    /// directory is treated as empty rather than failing the walk.
    pub readable: bool,
    /// The subdirectories, in the order the walk visits them.
    pub children: Vec<DirTree>,
}

/// True when a directory name is excluded from discovery: hidden directories,
/// build output, and dependency caches.
pub open spec fn spec_is_skipped_dir_name(name: Seq<char>) -> bool {
    (name.len() > 0 && name[0] == '.') || name == "target"@ || name == "node_modules"@
}

/// The project roots found under `t`, where `p` is the path of `t` itself:
/// `t`'s own manifest ends the walk at `t`, and an unreadable directory
/// contributes nothing.
pub open spec fn spec_walk_tree(t: DirTree, p: Seq<Seq<char>>) -> Seq<Seq<Seq<char>>>
    decreases t,
{
    if t.has_manifest {
        seq![p]
    } else if !t.readable {
        Seq::empty()
    } else {
        spec_walk_forest(t.children@, p)
    }
}

/// The project roots found under the subdirectories `ts` of the directory at
/// path `p`, skipping excluded names.
pub open spec fn spec_walk_forest(ts: Seq<DirTree>, p: Seq<Seq<char>>) -> Seq<Seq<Seq<char>>>
    decreases ts,
{
    if ts.len() == 0 {
        Seq::empty()
    } else {
        (if spec_is_skipped_dir_name(ts[0].name@) {
            Seq::empty()
        } else {
            spec_walk_tree(ts[0], p.push(ts[0].name@))
        }) + spec_walk_forest(ts.drop_first(), p)
    }
}

/// The project roots discovered when `t` is the scanned root: if the root
/// itself holds a manifest it is the sole project and nothing below it is
/// visited; otherwise its subtrees are walked.
pub open spec fn spec_discovered_projects(t: DirTree) -> Seq<Seq<Seq<char>>> {
    spec_walk_tree(t, Seq::empty())
}

/// Whether any directory anywhere in the tree, skipped or not, holds a
/// manifest.
pub open spec fn spec_tree_has_manifest(t: DirTree) -> bool
    decreases t,
{
    t.has_manifest || exists|i: int|
        0 <= i < t.children@.len() && spec_tree_has_manifest(#[trigger] t.children@[i])
}

/// A well-formed directory tree: sibling directories have distinct names, at
/// every level.
pub open spec fn spec_wf_tree(t: DirTree) -> bool
    decreases t,
{
    &&& forall|i: int, j: int|
        0 <= i < j < t.children@.len() ==> t.children@[i].name@ != t.children@[j].name@
    &&& forall|i: int| 0 <= i < t.children@.len() ==> spec_wf_tree(#[trigger] t.children@[i])
}

/// `a` names a directory strictly above the one `b` names.
pub open spec fn spec_is_proper_prefix(a: Seq<Seq<char>>, b: Seq<Seq<char>>) -> bool {
    a.len() < b.len() && a == b.subrange(0, a.len() as int)
}

proof fn lemma_walk_tree_empty_without_manifest(t: DirTree, p: Seq<Seq<char>>)
    requires
        !spec_tree_has_manifest(t),
    ensures
        spec_walk_tree(t, p).len() == 0,
    decreases t,
{
    if !t.has_manifest && t.readable {
        lemma_walk_forest_empty_without_manifest(t.children@, p);
    }
}

proof fn lemma_walk_forest_empty_without_manifest(ts: Seq<DirTree>, p: Seq<Seq<char>>)
    requires
        forall|i: int| 0 <= i < ts.len() ==> !spec_tree_has_manifest(#[trigger] ts[i]),
    ensures
        spec_walk_forest(ts, p).len() == 0,
    decreases ts,
{
    if ts.len() > 0 {
        if !spec_is_skipped_dir_name(ts[0].name@) {
            lemma_walk_tree_empty_without_manifest(ts[0], p.push(ts[0].name@));
        }
        assert(forall|i: int|
            0 <= i < ts.drop_first().len() ==> !spec_tree_has_manifest(
                #[trigger] ts.drop_first()[i],
            ));
        lemma_walk_forest_empty_without_manifest(ts.drop_first(), p);
    }
}

/// When no directory anywhere under the scanned root holds a manifest,
/// discovery finds nothing, so the run fails with `NotFound` before anything
/// is generated.
pub proof fn lemma_no_manifests_means_not_found(t: DirTree)
    requires
        !spec_tree_has_manifest(t),
    ensures
        spec_discovered_projects(t).len() == 0,
{
    lemma_walk_tree_empty_without_manifest(t, Seq::empty());
}

proof fn lemma_walk_tree_extends(t: DirTree, p: Seq<Seq<char>>)
    ensures
        forall|i: int|
            #![trigger spec_walk_tree(t, p)[i]]
            0 <= i < spec_walk_tree(t, p).len() ==> spec_walk_tree(t, p)[i].len() >= p.len()
                && spec_walk_tree(t, p)[i].subrange(0, p.len() as int) == p,
    decreases t,
{
    if t.has_manifest {
        assert(p.subrange(0, p.len() as int) =~= p);
        assert(spec_walk_tree(t, p)[0] == p);
    } else if t.readable {
        lemma_walk_forest_extends(t.children@, p);
        assert forall|i: int|
            0 <= i < spec_walk_tree(t, p).len() implies #[trigger] spec_walk_tree(t, p)[i].len()
            >= p.len() && spec_walk_tree(t, p)[i].subrange(0, p.len() as int) == p by {
            assert(spec_walk_tree(t, p)[i] == spec_walk_forest(t.children@, p)[i]);
        }
    }
}

proof fn lemma_walk_forest_extends(ts: Seq<DirTree>, p: Seq<Seq<char>>)
    ensures
        forall|i: int|
            #![trigger spec_walk_forest(ts, p)[i]]
            0 <= i < spec_walk_forest(ts, p).len() ==> spec_walk_forest(ts, p)[i].len() > p.len()
                && spec_walk_forest(ts, p)[i].subrange(0, p.len() as int) == p && (exists|k: int|
                0 <= k < ts.len() && spec_walk_forest(ts, p)[i][p.len() as int] == #[trigger] ts[k].name@),
    decreases ts,
{
    if ts.len() == 0 {
        return ;
    }
    let head = if spec_is_skipped_dir_name(ts[0].name@) {
        Seq::<Seq<Seq<char>>>::empty()
    } else {
        spec_walk_tree(ts[0], p.push(ts[0].name@))
    };
    let rest = spec_walk_forest(ts.drop_first(), p);
    let whole = spec_walk_forest(ts, p);
    assert(whole == head + rest);
    lemma_walk_tree_extends(ts[0], p.push(ts[0].name@));
    lemma_walk_forest_extends(ts.drop_first(), p);
    assert forall|i: int|
        0 <= i < whole.len() implies whole[i].len() > p.len() && whole[i].subrange(
        0,
        p.len() as int,
    ) == p && (exists|k: int|
        0 <= k < ts.len() && whole[i][p.len() as int] == #[trigger] ts[k].name@) by {
        if i < head.len() {
            let q = head[i];
            assert(q == spec_walk_tree(ts[0], p.push(ts[0].name@))[i]);
            let pn = p.push(ts[0].name@);
            assert(q.len() >= pn.len());
            assert(q.subrange(0, pn.len() as int) == pn);
            assert(q.subrange(0, p.len() as int) =~= p) by {
                assert(forall|x: int|
                    0 <= x < p.len() ==> q.subrange(0, p.len() as int)[x] == q.subrange(
                        0,
                        pn.len() as int,
                    )[x]);
            }
            assert(q[p.len() as int] == q.subrange(0, pn.len() as int)[p.len() as int]);
            assert(q[p.len() as int] == ts[0].name@);
            assert(whole[i] == q);
        } else {
            let q = rest[i - head.len()];
            assert(whole[i] == q);
            let k0 = choose|k: int|
                0 <= k < ts.drop_first().len() && q[p.len() as int] == #[trigger] ts.drop_first()[k].name@;
            assert(ts.drop_first()[k0] == ts[k0 + 1]);
            assert(q[p.len() as int] == ts[k0 + 1].name@);
        }
    }
}

proof fn lemma_walk_tree_pairwise(t: DirTree, p: Seq<Seq<char>>)
    requires
        spec_wf_tree(t),
    ensures
        forall|i: int, j: int|
            #![trigger spec_walk_tree(t, p)[i], spec_walk_tree(t, p)[j]]
            0 <= i < spec_walk_tree(t, p).len() && 0 <= j < spec_walk_tree(t, p).len() && i != j
                ==> !spec_is_proper_prefix(spec_walk_tree(t, p)[i], spec_walk_tree(t, p)[j]),
    decreases t,
{
    if !t.has_manifest && t.readable {
        lemma_walk_forest_pairwise(t.children@, p);
        assert forall|i: int, j: int|
            0 <= i < spec_walk_tree(t, p).len() && 0 <= j < spec_walk_tree(t, p).len() && i
                != j implies !spec_is_proper_prefix(
            #[trigger] spec_walk_tree(t, p)[i],
            #[trigger] spec_walk_tree(t, p)[j],
        ) by {
            assert(spec_walk_tree(t, p)[i] == spec_walk_forest(t.children@, p)[i]);
            assert(spec_walk_tree(t, p)[j] == spec_walk_forest(t.children@, p)[j]);
        }
    }
}

proof fn lemma_walk_forest_pairwise(ts: Seq<DirTree>, p: Seq<Seq<char>>)
    requires
        forall|i: int, j: int| 0 <= i < j < ts.len() ==> ts[i].name@ != ts[j].name@,
        forall|i: int| 0 <= i < ts.len() ==> spec_wf_tree(#[trigger] ts[i]),
    ensures
        forall|i: int, j: int|
            #![trigger spec_walk_forest(ts, p)[i], spec_walk_forest(ts, p)[j]]
            0 <= i < spec_walk_forest(ts, p).len() && 0 <= j < spec_walk_forest(ts, p).len() && i
                != j ==> !spec_is_proper_prefix(
                spec_walk_forest(ts, p)[i],
                spec_walk_forest(ts, p)[j],
            ),
    decreases ts,
{
    if ts.len() == 0 {
        return ;
    }
    let pn = p.push(ts[0].name@);
    let head = if spec_is_skipped_dir_name(ts[0].name@) {
        Seq::<Seq<Seq<char>>>::empty()
    } else {
        spec_walk_tree(ts[0], pn)
    };
    let rest = spec_walk_forest(ts.drop_first(), p);
    let whole = spec_walk_forest(ts, p);
    assert(whole == head + rest);
    lemma_walk_tree_pairwise(ts[0], pn);
    assert(forall|i: int, j: int|
        0 <= i < j < ts.drop_first().len() ==> #[trigger] ts.drop_first()[i].name@
            != #[trigger] ts.drop_first()[j].name@);
    assert(forall|i: int|
        0 <= i < ts.drop_first().len() ==> spec_wf_tree(#[trigger] ts.drop_first()[i]));
    lemma_walk_forest_pairwise(ts.drop_first(), p);
    lemma_walk_tree_extends(ts[0], pn);
    lemma_walk_forest_extends(ts.drop_first(), p);
    assert forall|i: int, j: int|
        0 <= i < whole.len() && 0 <= j < whole.len() && i != j implies !spec_is_proper_prefix(
        whole[i],
        whole[j],
    ) by {
        let q1 = whole[i];
        let q2 = whole[j];
        if i < head.len() && j < head.len() {
            assert(q1 == spec_walk_tree(ts[0], pn)[i]);
            assert(q2 == spec_walk_tree(ts[0], pn)[j]);
        } else if i >= head.len() && j >= head.len() {
            assert(q1 == rest[i - head.len()]);
            assert(q2 == rest[j - head.len()]);
        } else {
            let (h, r) = if i < head.len() {
                (q1, q2)
            } else {
                (q2, q1)
            };
            let hi = if i < head.len() {
                i
            } else {
                j
            };
            let ri = if i < head.len() {
                j
            } else {
                i
            };
            assert(h == spec_walk_tree(ts[0], pn)[hi]);
            assert(r == rest[ri - head.len()]);
            assert(h.len() >= pn.len());
            assert(h.subrange(0, pn.len() as int) == pn);
            assert(h[p.len() as int] == pn[p.len() as int]) by {
                assert(h.subrange(0, pn.len() as int)[p.len() as int] == h[p.len() as int]);
            }
            assert(h[p.len() as int] == ts[0].name@);
            let k0 = choose|k: int|
                0 <= k < ts.drop_first().len() && r[p.len() as int] == #[trigger] ts.drop_first()[k].name@;
            assert(ts.drop_first()[k0] == ts[k0 + 1]);
            assert(r[p.len() as int] == ts[k0 + 1].name@);
            assert(ts[0].name@ != ts[k0 + 1].name@);
            assert(h[p.len() as int] != r[p.len() as int]);
            if spec_is_proper_prefix(h, r) {
                assert(h[p.len() as int] == r.subrange(0, h.len() as int)[p.len() as int]);
                assert(false);
            }
            if spec_is_proper_prefix(r, h) {
                assert(r[p.len() as int] == h.subrange(0, r.len() as int)[p.len() as int]);
                assert(false);
            }
        }
    }
}

/// Discovery never descends into a subdirectory of a directory that itself
/// holds a manifest: in a well-formed tree, no discovered project root lies
/// strictly inside another.
pub proof fn lemma_no_nested_projects(t: DirTree)
    requires
        spec_wf_tree(t),
    ensures
        forall|i: int, j: int|
            #![trigger spec_discovered_projects(t)[i], spec_discovered_projects(t)[j]]
            0 <= i < spec_discovered_projects(t).len() && 0 <= j < spec_discovered_projects(
                t,
            ).len() && i != j ==> !spec_is_proper_prefix(
                spec_discovered_projects(t)[i],
                spec_discovered_projects(t)[j],
            ),
{
    lemma_walk_tree_pairwise(t, Seq::empty());
}

/// Raised when no project manifest exists anywhere under the scanned root.
#[derive(Clone, Copy, Debug, PartialEq, Eq, Structural)]
pub enum DiscoveryError {
    NotFound,
}

/// Decides `spec_is_skipped_dir_name`.
pub fn is_skipped_dir_name(name: &String) -> (r: bool)
    ensures
        r == spec_is_skipped_dir_name(name@),
{
    if name.as_str().unicode_len() > 0 && name.as_str().get_char(0) == '.' {
        return true;
    }
    let target_name = String::from_str("target");
    if *name == target_name {
        return true;
    }
    let cache_name = String::from_str("node_modules");
    *name == cache_name
}

proof fn lemma_walk_forest_push(ts: Seq<DirTree>, t: DirTree, p: Seq<Seq<char>>)
    ensures
        spec_walk_forest(ts.push(t), p) == spec_walk_forest(ts, p) + (if spec_is_skipped_dir_name(
            t.name@,
        ) {
            Seq::<Seq<Seq<char>>>::empty()
        } else {
            spec_walk_tree(t, p.push(t.name@))
        }),
    decreases ts,
{
    let contribution = if spec_is_skipped_dir_name(t.name@) {
        Seq::<Seq<Seq<char>>>::empty()
    } else {
        spec_walk_tree(t, p.push(t.name@))
    };
    if ts.len() == 0 {
        assert(ts.push(t)[0] == t);
        assert(ts.push(t).drop_first() =~= Seq::<DirTree>::empty());
        assert(spec_walk_forest(Seq::<DirTree>::empty(), p) =~= Seq::<Seq<Seq<char>>>::empty());
        assert(spec_walk_forest(ts.push(t), p) =~= spec_walk_forest(ts, p) + contribution);
    } else {
        assert(ts.push(t).drop_first() =~= ts.drop_first().push(t));
        lemma_walk_forest_push(ts.drop_first(), t, p);
        assert(spec_walk_forest(ts.push(t), p) =~= spec_walk_forest(ts, p) + contribution);
    }
}

/// Appends to `found` the project roots under `t`, whose own path is `p`.
fn collect_projects(t: &DirTree, p: &Vec<String>, found: &mut Vec<Vec<String>>)
    ensures
        final(found).deep_view() == old(found).deep_view() + spec_walk_tree(*t, p.deep_view()),
    decreases *t,
{
    if t.has_manifest {
        found.push(clone_string_vec(p));
        proof {
            assert(found.deep_view() =~= old(found).deep_view() + spec_walk_tree(
                *t,
                p.deep_view(),
            ));
        }
        return ;
    }
    if !t.readable {
        proof {
            assert(found.deep_view() =~= old(found).deep_view() + spec_walk_tree(
                *t,
                p.deep_view(),
            ));
        }
        return ;
    }
    let ghost children = t.children@;
    let mut i: usize = 0;
    proof {
        assert(children.take(0) =~= Seq::<DirTree>::empty());
        assert(found.deep_view() =~= old(found).deep_view() + spec_walk_forest(
            children.take(0),
            p.deep_view(),
        ));
    }
    while i < t.children.len()
        invariant
            i <= t.children.len(),
            children == t.children@,
            found.deep_view() == old(found).deep_view() + spec_walk_forest(
                children.take(i as int),
                p.deep_view(),
            ),
        decreases t.children.len() - i,
    {
        let child = &t.children[i];
        if !is_skipped_dir_name(&child.name) {
            let mut child_path = clone_string_vec(p);
            child_path.push(child.name.clone());
            proof {
                assert(child_path.deep_view() =~= p.deep_view().push(child.name@));
            }
            collect_projects(child, &child_path, found);
        }
        proof {
            lemma_walk_forest_push(children.take(i as int), children[i as int], p.deep_view());
            assert(children.take(i + 1) =~= children.take(i as int).push(children[i as int]));
            assert(found.deep_view() =~= old(found).deep_view() + spec_walk_forest(
                children.take(i + 1),
                p.deep_view(),
            ));
        }
        i = i + 1;
    }
    proof {
        assert(children.take(t.children.len() as int) =~= children);
    }
}

/// Walks the tree rooted at `root` and returns the discovered project-root
/// paths, or `NotFound` when the tree holds no manifest that discovery
/// reaches.
pub fn discover_project_roots(root: &DirTree) -> (r: Result<
    Vec<Vec<String>>,
    DiscoveryError,
>)
    ensures
        match r {
            Ok(ps) => ps.deep_view() == spec_discovered_projects(*root) && ps.len() > 0,
            Err(e) => e == DiscoveryError::NotFound && spec_discovered_projects(*root).len()
                == 0,
        },
{
    let mut found: Vec<Vec<String>> = Vec::new();
    let start: Vec<String> = Vec::new();
    proof {
        assert(start.deep_view() =~= Seq::<Seq<char>>::empty());
        assert(found.deep_view() =~= Seq::<Seq<Seq<char>>>::empty());
    }
    collect_projects(root, &start, &mut found);
    proof {
        assert(found.deep_view() =~= spec_discovered_projects(*root));
        assert(found.deep_view().len() == found.len());
    }
    if found.len() == 0 {
        Err(DiscoveryError::NotFound)
    } else {
        Ok(found)
    }
}

} // verus!

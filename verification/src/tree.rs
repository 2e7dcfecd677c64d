//! The file-tree reconciler: merging a directory listing against the
//! selected job's file manifest into a collapsible tree, and the tree's
//! navigation state.
//!
//! A node's identifier is its path relative to the download directory, as a
//! sequence of components, so expand/collapse choices survive a rebuild: the
//! open set is kept across `rebuild` and looked up by path, never by
//! position.

use vstd::prelude::*;

use crate::app::TorrentFile;
use crate::conversion::str_le;
use crate::sort::{insert_sorted, sort_stable};

verus! {

/// One entry of the directory listing handed in by the filesystem walk.
/// An unreadable directory arrives with `readable` cleared and no children;
/// it degrades to a leaf node rather than failing the build.
pub struct FsNode {
    pub name: String,
    pub is_dir: bool,
    pub readable: bool,
    pub children: Vec<FsNode>,
}

/// One node of the reconciled tree.  `path` is the node's identifier: its
/// component path relative to the walk's root.  `is_dir` marks a node that
/// can be expanded; an unreadable directory is a plain leaf.
pub struct TreeNode {
    pub name: String,
    pub is_dir: bool,
    pub path: Vec<String>,
    pub children: Vec<TreeNode>,
}

/// The mathematical shape of a tree node: every text as a character
/// sequence.
pub struct TreeNodeView {
    pub name: Seq<char>,
    pub is_dir: bool,
    pub path: Seq<Seq<char>>,
    pub children: Seq<TreeNodeView>,
}

/// A component path as character sequences.
pub open spec fn strs_view(p: Seq<String>) -> Seq<Seq<char>> {
    Seq::new(p.len(), |i: int| p[i]@)
}

pub open spec fn node_view(n: TreeNode) -> TreeNodeView
    decreases n,
{
    TreeNodeView {
        name: n.name@,
        is_dir: n.is_dir,
        path: strs_view(n.path@),
        children: nodes_view(n.children@),
    }
}

pub open spec fn nodes_view(s: Seq<TreeNode>) -> Seq<TreeNodeView>
    decreases s,
{
    if s.len() == 0 {
        Seq::empty()
    } else {
        seq![node_view(s.first())] + nodes_view(s.drop_first())
    }
}

/// `nodes_view` maps `node_view` over the sequence, element by element.
pub proof fn lemma_nodes_view_index(s: Seq<TreeNode>)
    ensures
        nodes_view(s).len() == s.len(),
        forall|i: int| 0 <= i < s.len() ==> nodes_view(s)[i] == node_view(s[i]),
    decreases s,
{
    if s.len() > 0 {
        lemma_nodes_view_index(s.drop_first());
        assert forall|i: int| 0 <= i < s.len() implies nodes_view(s)[i] == node_view(s[i]) by {
            if i > 0 {
                assert(nodes_view(s)[i] == nodes_view(s.drop_first())[i - 1]);
                assert(s.drop_first()[i - 1] == s[i]);
            }
        }
    }
}

/// `nodes_view` over a push appends the pushed node's view.
pub proof fn lemma_nodes_view_push(s: Seq<TreeNode>, n: TreeNode)
    ensures
        nodes_view(s.push(n)) == nodes_view(s).push(node_view(n)),
    decreases s,
{
    if s.len() == 0 {
        assert(s.push(n).first() == n);
        assert(s.push(n).drop_first() =~= Seq::<TreeNode>::empty());
        assert(nodes_view(Seq::<TreeNode>::empty()) == Seq::<TreeNodeView>::empty());
        assert(s =~= Seq::<TreeNode>::empty());
        assert(nodes_view(s.push(n))
            == seq![node_view(n)] + Seq::<TreeNodeView>::empty());
        assert(nodes_view(s.push(n)) =~= nodes_view(s).push(node_view(n)));
    } else {
        assert(s.push(n).first() == s.first());
        assert(s.push(n).drop_first() =~= s.drop_first().push(n));
        lemma_nodes_view_push(s.drop_first(), n);
        assert(nodes_view(s.push(n)) == seq![node_view(s.first())]
            + nodes_view(s.drop_first()).push(node_view(n)));
        assert(seq![node_view(s.first())] + nodes_view(s.drop_first()).push(node_view(n))
            =~= (seq![node_view(s.first())] + nodes_view(s.drop_first())).push(node_view(n)));
    }
}

// ---------------------------------------------------------------------------
// Membership: which paths belong to the job
// ---------------------------------------------------------------------------

/// `a` is a component-wise prefix of `b`.
pub open spec fn path_prefix(a: Seq<Seq<char>>, b: Seq<Seq<char>>) -> bool {
    a.len() <= b.len() && forall|i: int| 0 <= i < a.len() ==> a[i] == b[i]
}

/// The path belongs to the job: it is an ancestor or a descendant of some
/// manifest path.
pub open spec fn claimed(path: Seq<Seq<char>>, manifest: Seq<TorrentFile>) -> bool {
    exists|k: int|
        0 <= k < manifest.len() && (path_prefix(path, strs_view(manifest[k].path@))
            || path_prefix(strs_view(manifest[k].path@), path))
}

fn is_path_prefix(a: &Vec<String>, b: &Vec<String>) -> (r: bool)
    ensures
        r == path_prefix(strs_view(a@), strs_view(b@)),
{
    if a.len() > b.len() {
        return false;
    }
    let mut i: usize = 0;
    while i < a.len()
        invariant
            i <= a.len(),
            a.len() <= b.len(),
            forall|k: int| 0 <= k < i ==> strs_view(a@)[k] == strs_view(b@)[k],
        decreases a.len() - i,
    {
        if !a[i].eq(&b[i]) {
            assert(strs_view(a@)[i as int] != strs_view(b@)[i as int]);
            return false;
        }
        assert(strs_view(a@)[i as int] == strs_view(b@)[i as int]);
        i = i + 1;
    }
    true
}

/// Whether `path` belongs to the job whose manifest is given.
pub fn is_claimed(path: &Vec<String>, manifest: &Vec<TorrentFile>) -> (r: bool)
    ensures
        r == claimed(strs_view(path@), manifest@),
{
    let mut k: usize = 0;
    while k < manifest.len()
        invariant
            k <= manifest.len(),
            forall|m: int| 0 <= m < k ==> !(path_prefix(
                strs_view(path@),
                strs_view(#[trigger] manifest@[m].path@),
            ) || path_prefix(strs_view(manifest@[m].path@), strs_view(path@))),
        decreases manifest.len() - k,
    {
        if is_path_prefix(path, &manifest[k].path) || is_path_prefix(&manifest[k].path, path) {
            return true;
        }
        k = k + 1;
    }
    false
}

// ---------------------------------------------------------------------------
// Deterministic child order: directories first, then by name
// ---------------------------------------------------------------------------

/// Listing order: directories before files, and by name within each group.
pub open spec fn entry_le(a: FsNode, b: FsNode) -> bool {
    if a.is_dir != b.is_dir {
        a.is_dir
    } else {
        str_le(a.name@, b.name@)
    }
}

/// The listing order lifted to indices into a fixed entry sequence.
pub open spec fn entry_idx_le(entries: Seq<FsNode>) -> spec_fn(usize, usize) -> bool {
    |a: usize, b: usize| entry_le(entries[a as int], entries[b as int])
}

/// The identity index sequence `0, 1, ..., n-1`.
pub open spec fn idx_seq(n: nat) -> Seq<usize> {
    Seq::new(n, |i: int| i as usize)
}

fn entry_le_at(entries: &Vec<FsNode>, a: usize, b: usize) -> (r: bool)
    requires
        a < entries@.len(),
        b < entries@.len(),
    ensures
        r == entry_idx_le(entries@)(a, b),
{
    let ea = &entries[a];
    let eb = &entries[b];
    if ea.is_dir != eb.is_dir {
        ea.is_dir
    } else {
        let c = crate::conversion::compare_string(&ea.name, &eb.name);
        !matches!(c, core::cmp::Ordering::Greater)
    }
}

/// The indices of the entries, stably sorted into listing order.
fn sort_entry_indices(entries: &Vec<FsNode>) -> (r: Vec<usize>)
    ensures
        r@ == sort_stable(idx_seq(entries@.len()), entry_idx_le(entries@)),
        r@.to_multiset() == idx_seq(entries@.len()).to_multiset(),
        r@.len() == entries@.len(),
        forall|m: int| 0 <= m < r@.len() ==> (#[trigger] r@[m]) < entries@.len(),
{
    let ghost leq = entry_idx_le(entries@);
    let n = entries.len();
    let mut v: Vec<usize> = Vec::new();
    let mut m: usize = 0;
    while m < n
        invariant
            m <= n,
            n == entries@.len(),
            v@ =~= idx_seq(m as nat),
        decreases n - m,
    {
        v.push(m);
        proof {
            assert(v@ =~= idx_seq((m + 1) as nat));
        }
        m = m + 1;
    }
    let ghost orig = v@;
    proof {
        assert(orig =~= idx_seq(n as nat));
        crate::sort::lemma_sort_stable_multiset(orig, leq);
        if orig.len() > 0 {
            let s1 = orig.subrange(0, 1);
            assert(s1.drop_last() =~= Seq::<usize>::empty());
            assert(sort_stable(Seq::<usize>::empty(), leq) == Seq::<usize>::empty());
            assert(insert_sorted(Seq::<usize>::empty(), s1.last(), leq) == seq![s1.last()]);
            assert(s1 =~= seq![s1.last()]);
            assert(s1 == sort_stable(s1, leq));
        }
    }
    let mut i: usize = 1;
    while i < v.len()
        invariant
            1 <= i,
            v.len() == 0 || i <= v.len(),
            v.len() == orig.len(),
            orig == idx_seq(entries@.len()),
            leq == entry_idx_le(entries@),
            forall|k: int| 0 <= k < v@.len() ==> (#[trigger] v@[k]) < entries@.len(),
            v@.subrange(i as int, orig.len() as int)
                == orig.subrange(i as int, orig.len() as int),
            v.len() > 0 ==> v@.subrange(0, i as int)
                == sort_stable(orig.subrange(0, i as int), leq),
        decreases v.len() - i,
    {
        let ghost before = v@;
        let ghost prefix = v@.subrange(0, i as int);
        let ghost tail = orig.subrange(i + 1, orig.len() as int);
        proof {
            assert(before[i as int] == before.subrange(i as int, orig.len() as int)[0]);
        }
        let x = v.remove(i);
        proof {
            assert(x == orig[i as int]);
            assert forall|m2: int| 0 <= m2 < v@.len() implies v@[m2] == (prefix + tail)[m2] by {
                if m2 < i {
                    assert(before[m2] == before.subrange(0, i as int)[m2]);
                } else {
                    assert(before[m2 + 1]
                        == before.subrange(i as int, orig.len() as int)[m2 + 1 - i]);
                }
            }
            assert(v@ =~= prefix + tail);
        }
        let mut j: usize = i;
        while j > 0 && !entry_le_at(entries, v[j - 1], x)
            invariant
                j <= i,
                i <= v.len(),
                leq == entry_idx_le(entries@),
                v@ == prefix + tail,
                prefix.len() == i,
                forall|k: int| 0 <= k < v@.len() ==> (#[trigger] v@[k]) < entries@.len(),
                x < entries@.len(),
                forall|k: int| j <= k < i ==> !#[trigger] leq(prefix[k], x),
            decreases j,
        {
            proof {
                assert(v@[j - 1] == prefix[j - 1]);
            }
            j = j - 1;
        }
        proof {
            if j > 0 {
                assert(v@[j - 1] == prefix[j - 1]);
                assert(leq(prefix[j - 1], x));
            }
            crate::sort::lemma_insert_sorted_at(prefix, x, leq, j as int);
        }
        v.insert(j, x);
        proof {
            let mid = prefix + tail;
            assert(v@ == mid.insert(j as int, x));
            let inserted = prefix.subrange(0, j as int).push(x)
                + prefix.subrange(j as int, prefix.len() as int);
            assert(v@ =~= inserted + tail);
            let newprefix = v@.subrange(0, i + 1);
            assert(newprefix =~= inserted);
            assert(newprefix == insert_sorted(prefix, x, leq));
            assert(orig.subrange(0, i + 1).drop_last() =~= orig.subrange(0, i as int));
            assert(orig.subrange(0, i + 1).last() == x);
            assert(newprefix == sort_stable(orig.subrange(0, i + 1), leq));
            assert(v@.subrange(i + 1, orig.len() as int) =~= tail);
        }
        i = i + 1;
    }
    proof {
        if v.len() == 0 {
            assert(orig =~= Seq::<usize>::empty());
            assert(sort_stable(orig, leq) == Seq::<usize>::empty());
            assert(v@ =~= Seq::<usize>::empty());
        } else {
            assert(v@ =~= v@.subrange(0, orig.len() as int));
            assert(orig.subrange(0, orig.len() as int) =~= orig);
        }
        crate::sort::lemma_sort_stable_multiset(orig, leq);
    }
    v
}

// ---------------------------------------------------------------------------
// Reconciliation
// ---------------------------------------------------------------------------

/// The nodes produced for the entries picked out by `order`, in that order:
/// an entry whose path the manifest does not claim is skipped with its whole
/// subtree; a claimed readable directory is expanded recursively, its
/// children again in listing order; a claimed file — or a claimed directory
/// that cannot be listed — becomes a leaf.
pub open spec fn build_nodes(
    entries: Seq<FsNode>,
    manifest: Seq<TorrentFile>,
    prefix: Seq<String>,
    order: Seq<usize>,
) -> Seq<TreeNodeView>
    decreases entries, order.len(),
{
    if order.len() == 0 {
        Seq::empty()
    } else {
        let rest = build_nodes(entries, manifest, prefix, order.drop_first());
        let idx = order.first();
        if idx < entries.len() {
            let e = entries[idx as int];
            let path = prefix.push(e.name);
            if claimed(strs_view(path), manifest) {
                let children = if e.is_dir && e.readable {
                    build_nodes(
                        e.children@,
                        manifest,
                        path,
                        sort_stable(idx_seq(e.children@.len()), entry_idx_le(e.children@)),
                    )
                } else {
                    Seq::empty()
                };
                seq![
                    TreeNodeView {
                        name: e.name@,
                        is_dir: e.is_dir && e.readable,
                        path: strs_view(path),
                        children,
                    },
                ] + rest
            } else {
                rest
            }
        } else {
            rest
        }
    }
}

/// The reconciled tree for a directory listing: its entries in listing
/// order, filtered and expanded by the manifest.
pub open spec fn reconcile(
    entries: Seq<FsNode>,
    manifest: Seq<TorrentFile>,
    prefix: Seq<String>,
) -> Seq<TreeNodeView> {
    build_nodes(
        entries,
        manifest,
        prefix,
        sort_stable(idx_seq(entries.len()), entry_idx_le(entries)),
    )
}

fn clone_path(p: &Vec<String>) -> (r: Vec<String>)
    ensures
        r@ == p@,
{
    let mut out: Vec<String> = Vec::new();
    let mut i: usize = 0;
    while i < p.len()
        invariant
            i <= p.len(),
            out@ =~= p@.subrange(0, i as int),
        decreases p.len() - i,
    {
        out.push(p[i].clone());
        proof {
            assert(out@ =~= p@.subrange(0, i + 1));
        }
        i = i + 1;
    }
    proof {
        assert(p@.subrange(0, p@.len() as int) =~= p@);
    }
    out
}

/// Build the tree for one directory's entries: the reconciliation of the
/// listing against the job's manifest, with `prefix` the directory's path
/// relative to the walk's root.
pub fn make_tree(entries: &Vec<FsNode>, manifest: &Vec<TorrentFile>, prefix: &Vec<String>) -> (r:
    Vec<TreeNode>)
    ensures
        nodes_view(r@) == reconcile(entries@, manifest@, prefix@),
    decreases entries@,
{
    let ghost os = sort_stable(idx_seq(entries@.len()), entry_idx_le(entries@));
    let order = sort_entry_indices(entries);
    let mut out: Vec<TreeNode> = Vec::new();
    let mut k: usize = 0;
    proof {
        assert(order@.skip(0) =~= order@);
        assert(nodes_view(out@) == Seq::<TreeNodeView>::empty());
        assert(Seq::<TreeNodeView>::empty() + build_nodes(entries@, manifest@, prefix@, order@)
            =~= build_nodes(entries@, manifest@, prefix@, order@));
    }
    while k < order.len()
        invariant
            k <= order@.len(),
            order@ == os,
            os == sort_stable(idx_seq(entries@.len()), entry_idx_le(entries@)),
            forall|m: int| 0 <= m < order@.len() ==> (#[trigger] order@[m]) < entries@.len(),
            build_nodes(entries@, manifest@, prefix@, order@) == nodes_view(out@)
                + build_nodes(entries@, manifest@, prefix@, order@.skip(k as int)),
        decreases order@.len() - k,
    {
        let ghost remaining = order@.skip(k as int);
        proof {
            assert(remaining.first() == order@[k as int]);
            assert(remaining.drop_first() =~= order@.skip(k + 1));
        }
        let idx = order[k];
        let entry = &entries[idx];
        let mut path = clone_path(prefix);
        path.push(entry.name.clone());
        proof {
            assert(path@ == prefix@.push(entry.name));
        }
        if is_claimed(&path, manifest) {
            let children: Vec<TreeNode> = if entry.is_dir && entry.readable {
                make_tree(&entry.children, manifest, &path)
            } else {
                Vec::new()
            };
            proof {
                if !(entry.is_dir && entry.readable) {
                    assert(nodes_view(children@) == Seq::<TreeNodeView>::empty());
                }
            }
            let node = TreeNode {
                name: entry.name.clone(),
                is_dir: entry.is_dir && entry.readable,
                path,
                children,
            };
            let ghost nv = node_view(node);
            proof {
                assert(nv.name == entry.name@);
                assert(nv.path == strs_view(prefix@.push(entry.name)));
            }
            let ghost outbefore = out@;
            out.push(node);
            proof {
                lemma_nodes_view_push(outbefore, node);
                assert(build_nodes(entries@, manifest@, prefix@, remaining)
                    == seq![nv] + build_nodes(entries@, manifest@, prefix@, order@.skip(k + 1)));
                assert(nodes_view(outbefore) + (seq![nv]
                    + build_nodes(entries@, manifest@, prefix@, order@.skip(k + 1)))
                    =~= nodes_view(outbefore).push(nv)
                    + build_nodes(entries@, manifest@, prefix@, order@.skip(k + 1)));
            }
        } else {
            proof {
                assert(build_nodes(entries@, manifest@, prefix@, remaining)
                    == build_nodes(entries@, manifest@, prefix@, order@.skip(k + 1)));
            }
        }
        k = k + 1;
    }
    proof {
        assert(order@.skip(order@.len() as int).len() == 0);
        assert(build_nodes(entries@, manifest@, prefix@, order@.skip(order@.len() as int))
            == Seq::<TreeNodeView>::empty());
        assert(nodes_view(out@) + Seq::<TreeNodeView>::empty() =~= nodes_view(out@));
    }
    out
}

// ---------------------------------------------------------------------------
// The membership law
// ---------------------------------------------------------------------------

/// Every node of the forest, recursively, has a path the manifest claims.
pub open spec fn all_claimed(nodes: Seq<TreeNodeView>, manifest: Seq<TorrentFile>) -> bool
    decreases nodes,
{
    if nodes.len() == 0 {
        true
    } else {
        claimed(nodes.first().path, manifest) && all_claimed(nodes.first().children, manifest)
            && all_claimed(nodes.drop_first(), manifest)
    }
}

proof fn lemma_all_claimed_cons(n: TreeNodeView, rest: Seq<TreeNodeView>, manifest: Seq<TorrentFile>)
    requires
        claimed(n.path, manifest),
        all_claimed(n.children, manifest),
        all_claimed(rest, manifest),
    ensures
        all_claimed(seq![n] + rest, manifest),
{
    let s = seq![n] + rest;
    assert(s.first() == n);
    assert(s.drop_first() =~= rest);
}

/// Tree membership: the reconciled tree holds only nodes whose paths the
/// manifest claims — an entry unrelated to the job never appears, at any
/// depth.
pub proof fn lemma_tree_membership(
    entries: Seq<FsNode>,
    manifest: Seq<TorrentFile>,
    prefix: Seq<String>,
    order: Seq<usize>,
)
    ensures
        all_claimed(build_nodes(entries, manifest, prefix, order), manifest),
    decreases entries, order.len(),
{
    if order.len() == 0 {
    } else {
        lemma_tree_membership(entries, manifest, prefix, order.drop_first());
        let rest = build_nodes(entries, manifest, prefix, order.drop_first());
        let idx = order.first();
        if idx < entries.len() {
            let e = entries[idx as int];
            let path = prefix.push(e.name);
            if claimed(strs_view(path), manifest) {
                let children = if e.is_dir && e.readable {
                    build_nodes(
                        e.children@,
                        manifest,
                        path,
                        sort_stable(idx_seq(e.children@.len()), entry_idx_le(e.children@)),
                    )
                } else {
                    Seq::<TreeNodeView>::empty()
                };
                if e.is_dir && e.readable {
                    lemma_tree_membership(
                        e.children@,
                        manifest,
                        path,
                        sort_stable(idx_seq(e.children@.len()), entry_idx_le(e.children@)),
                    );
                }
                let n = TreeNodeView {
                    name: e.name@,
                    is_dir: e.is_dir && e.readable,
                    path: strs_view(path),
                    children,
                };
                lemma_all_claimed_cons(n, rest, manifest);
            }
        }
    }
}

// ---------------------------------------------------------------------------
// Navigation state
// ---------------------------------------------------------------------------

/// The identifiers of a path list, each as character sequences.
pub open spec fn paths_view(s: Seq<Vec<String>>) -> Seq<Seq<Seq<char>>> {
    Seq::new(s.len(), |i: int| strs_view(s[i]@))
}

/// The open set holds the identifier.
pub open spec fn open_contains(opened: Seq<Vec<String>>, p: Seq<Seq<char>>) -> bool {
    exists|k: int| 0 <= k < opened.len() && strs_view(#[trigger] opened[k]@) == p
}

/// The identifiers visible with the given open set, in display order: each
/// node, followed — when it is an expanded directory — by its visible
/// descendants.
pub open spec fn flatten_nodes(
    nodes: Seq<TreeNodeView>,
    opened: Seq<Vec<String>>,
) -> Seq<Seq<Seq<char>>>
    decreases nodes,
{
    if nodes.len() == 0 {
        Seq::empty()
    } else {
        let n = nodes.first();
        seq![n.path] + (if n.is_dir && open_contains(opened, n.path) {
            flatten_nodes(n.children, opened)
        } else {
            Seq::empty()
        }) + flatten_nodes(nodes.drop_first(), opened)
    }
}

fn path_eq(a: &Vec<String>, b: &Vec<String>) -> (r: bool)
    ensures
        r == (strs_view(a@) == strs_view(b@)),
{
    if a.len() != b.len() {
        assert(strs_view(a@).len() != strs_view(b@).len());
        return false;
    }
    let mut i: usize = 0;
    while i < a.len()
        invariant
            i <= a.len(),
            a.len() == b.len(),
            forall|k: int| 0 <= k < i ==> strs_view(a@)[k] == strs_view(b@)[k],
        decreases a.len() - i,
    {
        if !a[i].eq(&b[i]) {
            assert(strs_view(a@)[i as int] != strs_view(b@)[i as int]);
            return false;
        }
        assert(strs_view(a@)[i as int] == strs_view(b@)[i as int]);
        i = i + 1;
    }
    proof {
        assert(strs_view(a@) =~= strs_view(b@));
    }
    true
}

fn opened_has(opened: &Vec<Vec<String>>, p: &Vec<String>) -> (r: bool)
    ensures
        r == open_contains(opened@, strs_view(p@)),
{
    let mut k: usize = 0;
    while k < opened.len()
        invariant
            k <= opened.len(),
            forall|m: int| 0 <= m < k ==> strs_view(#[trigger] opened@[m]@) != strs_view(p@),
        decreases opened.len() - k,
    {
        if path_eq(&opened[k], p) {
            return true;
        }
        k = k + 1;
    }
    false
}

/// The visible identifiers of the forest under the open set.
pub fn flatten(nodes: &Vec<TreeNode>, opened: &Vec<Vec<String>>) -> (r: Vec<Vec<String>>)
    ensures
        paths_view(r@) == flatten_nodes(nodes_view(nodes@), opened@),
    decreases nodes@,
{
    let ghost full = nodes_view(nodes@);
    proof {
        lemma_nodes_view_index(nodes@);
    }
    let mut out: Vec<Vec<String>> = Vec::new();
    let mut k: usize = 0;
    proof {
        assert(paths_view(out@) =~= Seq::<Seq<Seq<char>>>::empty());
        assert(full.skip(0) =~= full);
        assert(Seq::<Seq<Seq<char>>>::empty() + flatten_nodes(full, opened@)
            =~= flatten_nodes(full, opened@));
    }
    while k < nodes.len()
        invariant
            k <= nodes@.len(),
            full == nodes_view(nodes@),
            full.len() == nodes@.len(),
            forall|i: int| 0 <= i < nodes@.len() ==> full[i] == node_view(nodes@[i]),
            flatten_nodes(full, opened@) == paths_view(out@)
                + flatten_nodes(full.skip(k as int), opened@),
        decreases nodes@.len() - k,
    {
        let ghost remaining = full.skip(k as int);
        proof {
            assert(remaining.first() == full[k as int]);
            assert(remaining.drop_first() =~= full.skip(k + 1));
        }
        let node = &nodes[k];
        let ghost nv = node_view(*node);
        let ghost outbefore = out@;
        out.push(clone_path(&node.path));
        proof {
            assert(paths_view(out@) =~= paths_view(outbefore).push(strs_view(node.path@)));
            assert(nv.path == strs_view(node.path@));
        }
        let expanded = if node.is_dir { opened_has(opened, &node.path) } else { false };
        if expanded {
            let mut sub = flatten(&node.children, opened);
            proof {
                assert(nv.children == nodes_view(node.children@));
            }
            let ghost outmid = out@;
            let ghost subseq = sub@;
            let ghost subview = paths_view(sub@);
            out.append(&mut sub);
            proof {
                assert(out@ == outmid + subseq);
                assert forall|m: int| 0 <= m < paths_view(out@).len() implies paths_view(out@)[m]
                    == (paths_view(outmid) + subview)[m] by {
                    if m < outmid.len() {
                        assert(out@[m] == outmid[m]);
                    } else {
                        assert(out@[m] == subseq[m - outmid.len()]);
                    }
                }
                assert(paths_view(out@) =~= paths_view(outmid) + subview);
            }
        }
        proof {
            let tail = flatten_nodes(full.skip(k + 1), opened@);
            let mid = if nv.is_dir && open_contains(opened@, nv.path) {
                flatten_nodes(nv.children, opened@)
            } else {
                Seq::<Seq<Seq<char>>>::empty()
            };
            assert(flatten_nodes(remaining, opened@) == seq![nv.path] + mid + tail);
            assert(paths_view(outbefore) + (seq![nv.path] + mid + tail)
                =~= (paths_view(outbefore).push(nv.path) + mid) + tail);
            if expanded {
                assert(paths_view(out@) =~= paths_view(outbefore).push(nv.path) + mid);
            } else {
                assert(mid =~= Seq::<Seq<Seq<char>>>::empty());
                assert(paths_view(out@) =~= paths_view(outbefore).push(nv.path) + mid);
            }
        }
        k = k + 1;
    }
    proof {
        assert(full.skip(full.len() as int).len() == 0);
        assert(flatten_nodes(full.skip(full.len() as int), opened@)
            == Seq::<Seq<Seq<char>>>::empty());
        assert(paths_view(out@) + Seq::<Seq<Seq<char>>>::empty() =~= paths_view(out@));
    }
    out
}

/// The position of the first identifier equal to `p`, or the length when
/// none is.
pub open spec fn first_pos(ids: Seq<Seq<Seq<char>>>, p: Seq<Seq<char>>) -> int
    decreases ids,
{
    if ids.len() == 0 {
        0
    } else if ids.first() == p {
        0
    } else {
        1 + first_pos(ids.drop_first(), p)
    }
}

proof fn lemma_first_pos_range(ids: Seq<Seq<Seq<char>>>, p: Seq<Seq<char>>)
    ensures
        0 <= first_pos(ids, p) <= ids.len(),
    decreases ids,
{
    if ids.len() > 0 && ids.first() != p {
        lemma_first_pos_range(ids.drop_first(), p);
    }
}

/// Where selection movement starts from: the first occurrence of the
/// selected identifier among the visible ones, or nothing when there is no
/// selection or it is not visible.
pub open spec fn selected_pos(ids: Seq<Seq<Seq<char>>>, selected: Option<Vec<String>>) -> Option<
    int,
> {
    match selected {
        Option::Some(p) => if first_pos(ids, strs_view(p@)) < ids.len() {
            Option::Some(first_pos(ids, strs_view(p@)))
        } else {
            Option::None
        },
        Option::None => Option::None,
    }
}

fn find_pos(ids: &Vec<Vec<String>>, p: &Vec<String>) -> (r: usize)
    ensures
        r == first_pos(paths_view(ids@), strs_view(p@)),
{
    let ghost idsv = paths_view(ids@);
    let mut k: usize = 0;
    proof {
        assert(idsv.skip(0) =~= idsv);
    }
    while k < ids.len()
        invariant
            k <= ids@.len(),
            idsv == paths_view(ids@),
            first_pos(idsv, strs_view(p@)) == k + first_pos(
                idsv.skip(k as int),
                strs_view(p@),
            ),
        decreases ids@.len() - k,
    {
        let ghost remaining = idsv.skip(k as int);
        proof {
            assert(remaining.first() == idsv[k as int]);
            assert(remaining.drop_first() =~= idsv.skip(k + 1));
        }
        if path_eq(&ids[k], p) {
            proof {
                assert(remaining.first() == strs_view(p@));
                assert(first_pos(remaining, strs_view(p@)) == 0);
            }
            return k;
        }
        k = k + 1;
    }
    proof {
        assert(idsv.skip(idsv.len() as int).len() == 0);
        assert(first_pos(idsv.skip(idsv.len() as int), strs_view(p@)) == 0);
    }
    ids.len()
}

/// The collapsible tree shown for the selected job, with its open set and
/// its selected identifier.  Identifiers are component paths, so both
/// survive a rebuild of `items`.
pub struct StatefulTree {
    pub items: Vec<TreeNode>,
    pub opened: Vec<Vec<String>>,
    pub selected: Option<Vec<String>>,
}

/// The open set holds no identifier twice.
pub open spec fn opened_wf(opened: Seq<Vec<String>>) -> bool {
    forall|i: int, j: int| 0 <= i < j < opened.len()
        ==> strs_view(#[trigger] opened[i]@) != strs_view(#[trigger] opened[j]@)
}

/// How `rebuild` relates the state before, the new items and the state
/// after: the items are replaced, the open set is carried over untouched,
/// the selection is cleared.
pub open spec fn rebuild_rel(pre: StatefulTree, items: Seq<TreeNode>, post: StatefulTree) -> bool {
    &&& post.items@ == items
    &&& post.opened@ == pre.opened@
    &&& post.selected is None
}

impl StatefulTree {
    pub open spec fn wf(self) -> bool {
        opened_wf(self.opened@)
    }

    /// An empty tree: nothing listed, nothing open, nothing selected.
    pub fn new() -> (r: StatefulTree)
        ensures
            r.items@ == Seq::<TreeNode>::empty(),
            r.opened@ == Seq::<Vec<String>>::empty(),
            r.selected is None,
            r.wf(),
    {
        StatefulTree { items: Vec::new(), opened: Vec::new(), selected: Option::None }
    }

    /// Replace the items after a walk, keeping the open set so expansion
    /// survives the rebuild; the selection starts afresh.
    pub fn rebuild(&mut self, items: Vec<TreeNode>)
        ensures
            rebuild_rel(*old(self), items@, *final(self)),
            old(self).wf() ==> final(self).wf(),
    {
        self.items = items;
        self.selected = Option::None;
    }

    /// Move the selection one visible row down; on the last row — or with
    /// no selection yet — it lands by the original's rule, and an empty
    /// view leaves everything unchanged.
    pub fn next_file(&mut self)
        ensures
            final(self).items@ == old(self).items@,
            final(self).opened@ == old(self).opened@,
            ({
                let ids = flatten_nodes(nodes_view(old(self).items@), old(self).opened@);
                if ids.len() == 0 {
                    final(self).selected == old(self).selected
                } else {
                    let target = match selected_pos(ids, old(self).selected) {
                        Option::Some(pos) => if pos + 1 < ids.len() { pos + 1 } else {
                            ids.len() - 1
                        },
                        Option::None => 0,
                    };
                    final(self).selected matches Some(p) && strs_view(p@) == ids[target]
                }
            }),
    {
        let visible = flatten(&self.items, &self.opened);
        if visible.len() == 0 {
            return;
        }
        let ghost ids = paths_view(visible@);
        let new_index: usize = match &self.selected {
            Option::Some(p) => {
                proof {
                    lemma_first_pos_range(ids, strs_view(p@));
                }
                let pos = find_pos(&visible, p);
                if pos >= visible.len() {
                    0
                } else if pos + 1 < visible.len() {
                    pos + 1
                } else {
                    visible.len() - 1
                }
            },
            Option::None => 0,
        };
        self.selected = Option::Some(clone_path(&visible[new_index]));
    }

    /// Move the selection one visible row up, clamped at the first row; an
    /// empty view leaves everything unchanged.
    pub fn previous_file(&mut self)
        ensures
            final(self).items@ == old(self).items@,
            final(self).opened@ == old(self).opened@,
            ({
                let ids = flatten_nodes(nodes_view(old(self).items@), old(self).opened@);
                if ids.len() == 0 {
                    final(self).selected == old(self).selected
                } else {
                    let target = match selected_pos(ids, old(self).selected) {
                        Option::Some(pos) => if pos >= 1 { pos - 1 } else { 0 },
                        Option::None => 0,
                    };
                    final(self).selected matches Some(p) && strs_view(p@) == ids[target]
                }
            }),
    {
        let visible = flatten(&self.items, &self.opened);
        if visible.len() == 0 {
            return;
        }
        let ghost ids = paths_view(visible@);
        let new_index: usize = match &self.selected {
            Option::Some(p) => {
                proof {
                    lemma_first_pos_range(ids, strs_view(p@));
                }
                let pos = find_pos(&visible, p);
                if pos >= visible.len() {
                    0
                } else if pos >= 1 {
                    pos - 1
                } else {
                    0
                }
            },
            Option::None => 0,
        };
        self.selected = Option::Some(clone_path(&visible[new_index]));
    }

    /// Toggle the open state of the selected identifier: membership in the
    /// open set flips for it and changes for no other identifier.
    pub fn toggle_collapse(&mut self)
        requires
            old(self).wf(),
        ensures
            final(self).wf(),
            final(self).items@ == old(self).items@,
            final(self).selected == old(self).selected,
            match old(self).selected {
                Option::Some(p) => {
                    &&& open_contains(final(self).opened@, strs_view(p@))
                        == !open_contains(old(self).opened@, strs_view(p@))
                    &&& forall|q: Seq<Seq<char>>| q != strs_view(p@)
                        ==> #[trigger] open_contains(final(self).opened@, q)
                            == open_contains(old(self).opened@, q)
                },
                Option::None => final(self).opened@ == old(self).opened@,
            },
    {
        let p = match &self.selected {
            Option::Some(sel) => clone_path(sel),
            Option::None => {
                return;
            },
        };
        let ghost oldopened = self.opened@;
        let mut k: usize = 0;
        while k < self.opened.len()
            invariant
                k <= self.opened@.len(),
                self.opened@ == oldopened,
                oldopened == old(self).opened@,
                self.items@ == old(self).items@,
                self.selected == old(self).selected,
                opened_wf(oldopened),
                old(self).selected matches Option::Some(sel) && sel@ == p@,
                forall|m: int| 0 <= m < k
                    ==> strs_view(#[trigger] oldopened[m]@) != strs_view(p@),
            decreases self.opened@.len() - k,
        {
            if path_eq(&self.opened[k], &p) {
                proof {
                    assert(strs_view(oldopened[k as int]@) == strs_view(p@));
                    assert(open_contains(oldopened, strs_view(p@)));
                }
                self.opened.remove(k);
                proof {
                    let newo = self.opened@;
                    assert(newo =~= oldopened.subrange(0, k as int)
                        + oldopened.subrange(k + 1, oldopened.len() as int));
                    assert forall|q: Seq<Seq<char>>| q != strs_view(p@) implies
                        #[trigger] open_contains(newo, q) == open_contains(oldopened, q) by {
                        if open_contains(oldopened, q) {
                            let m = choose|m: int| 0 <= m < oldopened.len()
                                && strs_view(oldopened[m]@) == q;
                            if m < k {
                                assert(newo[m] == oldopened[m]);
                            } else {
                                assert(m != k);
                                assert(newo[m - 1] == oldopened[m]);
                            }
                        }
                        if open_contains(newo, q) {
                            let m = choose|m: int| 0 <= m < newo.len()
                                && strs_view(newo[m]@) == q;
                            if m < k {
                                assert(oldopened[m] == newo[m]);
                            } else {
                                assert(oldopened[m + 1] == newo[m]);
                            }
                        }
                    }
                    assert(!open_contains(newo, strs_view(p@))) by {
                        if open_contains(newo, strs_view(p@)) {
                            let m = choose|m: int| 0 <= m < newo.len()
                                && strs_view(newo[m]@) == strs_view(p@);
                            if m < k {
                                assert(strs_view(oldopened[m]@) == strs_view(p@));
                            } else {
                                assert(newo[m] == oldopened[m + 1]);
                                assert(strs_view(oldopened[m + 1]@)
                                    != strs_view(oldopened[k as int]@));
                            }
                        }
                    }
                    assert forall|i: int, j: int| 0 <= i < j < newo.len() implies
                        strs_view(#[trigger] newo[i]@) != strs_view(#[trigger] newo[j]@) by {
                        let oi = if i < k { i } else { i + 1 };
                        let oj = if j < k { j } else { j + 1 };
                        assert(newo[i] == oldopened[oi]);
                        assert(newo[j] == oldopened[oj]);
                        assert(strs_view(oldopened[oi]@) != strs_view(oldopened[oj]@));
                    }
                }
                return;
            }
            k = k + 1;
        }
        let ghost before = self.opened@;
        self.opened.push(p);
        proof {
            let newo = self.opened@;
            assert(open_contains(newo, strs_view(p@))) by {
                assert(strs_view(newo[newo.len() - 1]@) == strs_view(p@));
            }
            assert forall|q: Seq<Seq<char>>| q != strs_view(p@) implies
                #[trigger] open_contains(newo, q) == open_contains(before, q) by {
                if open_contains(newo, q) {
                    let m = choose|m: int| 0 <= m < newo.len() && strs_view(newo[m]@) == q;
                    assert(m < before.len());
                    assert(before[m] == newo[m]);
                }
                if open_contains(before, q) {
                    let m = choose|m: int| 0 <= m < before.len()
                        && strs_view(before[m]@) == q;
                    assert(newo[m] == before[m]);
                }
            }
            assert(!open_contains(before, strs_view(p@)));
            assert forall|i: int, j: int| 0 <= i < j < newo.len() implies
                strs_view(#[trigger] newo[i]@) != strs_view(#[trigger] newo[j]@) by {
                if j < newo.len() - 1 {
                    assert(newo[i] == before[i] && newo[j] == before[j]);
                    assert(strs_view(before[i]@) != strs_view(before[j]@));
                } else {
                    assert(strs_view(newo[j]@) == strs_view(p@));
                    assert(newo[i] == before[i]);
                    assert(strs_view(before[i]@) != strs_view(p@));
                }
            }
        }
    }
}

/// Collapse persistence: a rebuild carries the open set over unchanged, so
/// an identifier expanded before the rebuild is expanded after it.  With
/// `make_tree`'s determinism — identical listing and manifest give the
/// identical tree — the expanded node is still present and still open.
pub proof fn lemma_collapse_persistence(
    pre: StatefulTree,
    items: Seq<TreeNode>,
    post: StatefulTree,
    id: Seq<Seq<char>>,
)
    requires
        rebuild_rel(pre, items, post),
        open_contains(pre.opened@, id),
    ensures
        open_contains(post.opened@, id),
{
}

// ---------------------------------------------------------------------------
// Path splitting
// ---------------------------------------------------------------------------

/// The position of the first separator in `s`, or its length when there is
/// none.
pub open spec fn first_slash(s: Seq<char>) -> nat
    decreases s.len(),
{
    if s.len() == 0 {
        0
    } else if s[0] == '/' {
        0
    } else {
        (1 + first_slash(s.skip(1))) as nat
    }
}

/// The components of a separator-joined path: the maximal separator-free,
/// non-empty runs of the text, in order.  Empty segments — leading,
/// trailing or doubled separators — vanish.
pub open spec fn split_spec(s: Seq<char>) -> Seq<Seq<char>>
    decreases s.len(),
        via split_spec_decreases
{
    if s.len() == 0 {
        Seq::empty()
    } else if s[0] == '/' {
        split_spec(s.skip(1))
    } else {
        let k = first_slash(s);
        seq![s.subrange(0, k as int)] + split_spec(s.skip(k as int))
    }
}

proof fn lemma_first_slash_le(s: Seq<char>)
    ensures
        first_slash(s) <= s.len(),
    decreases s.len(),
{
    if s.len() > 0 && s[0] != '/' {
        lemma_first_slash_le(s.skip(1));
    }
}

#[via_fn]
proof fn split_spec_decreases(s: Seq<char>) {
    if s.len() > 0 && s[0] != '/' {
        assert(first_slash(s) == (1 + first_slash(s.skip(1))) as nat);
        assert(first_slash(s) >= 1);
        lemma_first_slash_le(s);
    }
}

proof fn lemma_first_slash_at(t: Seq<char>, d: int)
    requires
        0 <= d <= t.len(),
        forall|m: int| 0 <= m < d ==> t[m] != '/',
        d == t.len() || t[d] == '/',
    ensures
        first_slash(t) == d,
    decreases d,
{
    if d > 0 {
        assert(t[0] != '/');
        assert(forall|m: int| 0 <= m < d - 1 ==> t.skip(1)[m] != '/');
        if d < t.len() {
            assert(t.skip(1)[d - 1] == t[d]);
        }
        lemma_first_slash_at(t.skip(1), d - 1);
    }
}

/// Split a path into its components, dropping empty segments.
pub fn split_path(s: &str) -> (r: Vec<String>)
    ensures
        strs_view(r@) == split_spec(s@),
{
    let n = s.unicode_len();
    let mut out: Vec<String> = Vec::new();
    let mut i: usize = 0;
    proof {
        assert(s@.skip(0) =~= s@);
        assert(strs_view(out@) =~= Seq::<Seq<char>>::empty());
        assert(Seq::<Seq<char>>::empty() + split_spec(s@) =~= split_spec(s@));
    }
    while i < n
        invariant
            i <= n,
            n == s@.len(),
            split_spec(s@) == strs_view(out@) + split_spec(s@.skip(i as int)),
        decreases n - i,
    {
        let c = s.get_char(i);
        if c == '/' {
            proof {
                assert(s@.skip(i as int)[0] == '/');
                assert(s@.skip(i as int).skip(1) =~= s@.skip(i + 1));
            }
            i = i + 1;
        } else {
            let mut j: usize = i;
            while j < n && s.get_char(j) != '/'
                invariant
                    i <= j <= n,
                    n == s@.len(),
                    forall|m: int| i <= m < j ==> s@[m] != '/',
                decreases n - j,
            {
                j = j + 1;
            }
            proof {
                let rest = s@.skip(i as int);
                assert(forall|m: int| 0 <= m < j - i ==> rest[m] == s@[m + i] && rest[m] != '/');
                if j < n {
                    assert(rest[j - i] == s@[j as int]);
                    assert(s@[j as int] == '/');
                }
                lemma_first_slash_at(rest, j - i);
                assert(rest[0] == s@[i as int]);
            }
            let component = s.substring_char(i, j).to_owned();
            proof {
                assert(component@ =~= s@.skip(i as int).subrange(0, j - i));
            }
            let ghost outbefore = out@;
            out.push(component);
            proof {
                let rest = s@.skip(i as int);
                assert(split_spec(rest) == seq![rest.subrange(0, j - i)] + split_spec(
                    rest.skip(j - i),
                ));
                assert(rest.skip(j - i) =~= s@.skip(j as int));
                assert(strs_view(out@) =~= strs_view(outbefore).push(component@));
                assert(strs_view(outbefore).push(component@) + split_spec(s@.skip(j as int))
                    =~= strs_view(outbefore) + split_spec(rest));
            }
            i = j;
        }
    }
    proof {
        assert(s@.skip(n as int).len() == 0);
        assert(split_spec(s@.skip(n as int)) == Seq::<Seq<char>>::empty());
        assert(strs_view(out@) + Seq::<Seq<char>>::empty() =~= strs_view(out@));
    }
    out
}

// ---------------------------------------------------------------------------
// The add-job file filter
// ---------------------------------------------------------------------------

/// The name ends in the torrent-file extension, with a stem before it: a
/// file named exactly `.torrent` has no extension, only a hidden name.
pub open spec fn has_torrent_ext(name: Seq<char>) -> bool {
    name.len() > 8 && name.skip(name.len() - 8) == ".torrent"@
}

/// Whether a file name denotes a candidate for the add-job picker.
pub fn is_torrent_file(name: &String) -> (r: bool)
    ensures
        r == has_torrent_ext(name@),
{
    proof {
        reveal_strlit(".torrent");
    }
    let n = name.as_str().unicode_len();
    if n <= 8 {
        return false;
    }
    let pat = ".torrent";
    let mut i: usize = 0;
    while i < 8
        invariant
            8 < n,
            n == name@.len(),
            pat@ == ".torrent"@,
            pat@.len() == 8,
            forall|k: int| 0 <= k < i ==> name@[n - 8 + k] == pat@[k],
        decreases 8 - i,
    {
        let c = name.as_str().get_char(n - 8 + i);
        let d = pat.get_char(i);
        if c != d {
            assert(name@[n - 8 + i as int] != pat@[i as int]);
            assert(name@.skip(n as int - 8)[i as int] != ".torrent"@[i as int]);
            return false;
        }
        i = i + 1;
    }
    proof {
        assert(name@.skip(n as int - 8) =~= ".torrent"@);
    }
    true
}

} // verus!

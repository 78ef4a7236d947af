//! Generic hierarchy tree: parent-child relationships with depth-first traversal.
//!
//! Used for layer trees, track trees, entity trees, and any editor that
//! needs a collapsible tree panel.

use std::collections::{HashMap, HashSet};
use vstd::prelude::*;

verus! {

/// A unique identifier for nodes in the hierarchy.
pub type NodeId = u64;

/// A node in the hierarchy tree.
#[derive(Debug)]
pub struct HierarchyNode {
    /// Unique identifier for this node.
    pub id: NodeId,
    /// Display name.
    pub name: String,
    /// Child nodes.
    pub children: Vec<HierarchyNode>,
    /// Depth in the tree (0 = root).
    pub depth: usize,
}

/// A copy of `node` and its whole subtree: same fields, same listing.
fn clone_node(node: &HierarchyNode) -> (r: HierarchyNode)
    ensures
        r.id == node.id,
        r.name == node.name,
        r.depth == node.depth,
        r.children@.len() == node.children@.len(),
        flatten_tree(r) == flatten_tree(*node),
    decreases node,
{
    let mut children: Vec<HierarchyNode> = Vec::new();
    let n = node.children.len();
    let mut j: usize = 0;
    while j < n
        invariant
            j <= n,
            n == node.children@.len(),
            children@.len() == j,
            forall|k: int| 0 <= k < j ==> flatten_tree(#[trigger] children@[k]) == flatten_tree(node.children@[k]),
        decreases n - j,
    {
        assert(decreases_to!(*node => node.children));
        children.push(clone_node(&node.children[j]));
        j = j + 1;
    }
    proof {
        lemma_flatten_forest_pointwise(children@, node.children@);
    }
    HierarchyNode { id: node.id, name: node.name.clone(), children, depth: node.depth }
}

/// Forests whose trees have equal listings, position by position, have
/// equal listings.
proof fn lemma_flatten_forest_pointwise(a: Seq<HierarchyNode>, b: Seq<HierarchyNode>)
    requires
        a.len() == b.len(),
        forall|k: int| 0 <= k < a.len() ==> flatten_tree(#[trigger] a[k]) == flatten_tree(b[k]),
    ensures
        flatten_forest(a) == flatten_forest(b),
    decreases a.len(),
{
    if a.len() > 0 {
        lemma_flatten_forest_pointwise(a.drop_last(), b.drop_last());
        assert(flatten_tree(a.last()) == flatten_tree(b.last())) by {
            assert(a.last() == a[a.len() - 1]);
            assert(b.last() == b[b.len() - 1]);
        }
    }
}

impl Clone for HierarchyNode {
    fn clone(&self) -> (r: Self)
        ensures
            r.id == self.id,
            r.name == self.name,
            r.depth == self.depth,
            flatten_tree(r) == flatten_tree(*self),
    {
        clone_node(self)
    }
}

/// A flattened hierarchy entry for display in a list/panel.
#[derive(Debug, Clone, PartialEq, Eq)]
pub struct FlatEntry {
    /// Nesting depth (0 = root).
    pub depth: usize,
    /// Node identifier.
    pub id: NodeId,
    /// Display name.
    pub name: String,
}

/// The entry a node contributes to a flattened listing: (depth, id, name).
pub open spec fn entry_of(n: HierarchyNode) -> (usize, NodeId, Seq<char>) {
    (n.depth, n.id, n.name@)
}

/// A flat entry as (depth, id, name).
pub open spec fn flat_view(e: FlatEntry) -> (usize, NodeId, Seq<char>) {
    (e.depth, e.id, e.name@)
}

/// Depth-first, pre-order listing of a forest: each node, then its
/// children's listings in order.
pub open spec fn flatten_forest(nodes: Seq<HierarchyNode>) -> Seq<(usize, NodeId, Seq<char>)>
    decreases nodes,
{
    if nodes.len() == 0 {
        Seq::empty()
    } else {
        flatten_forest(nodes.drop_last()) + flatten_tree(nodes.last())
    }
}

/// Depth-first, pre-order listing of one tree.
pub open spec fn flatten_tree(node: HierarchyNode) -> Seq<(usize, NodeId, Seq<char>)>
    decreases node,
{
    seq![entry_of(node)] + flatten_forest(node.children@)
}

// ---------------------------------------------------------------------------
// Building
// ---------------------------------------------------------------------------

/// Occurrence `k` of `ids` hangs under a parent: its parent is another id
/// that occurs in `ids`. Otherwise the occurrence is a root.
pub open spec fn has_parent_link(ids: Seq<NodeId>, parents: Seq<Option<NodeId>>, k: int) -> bool {
    match parents[k] {
        Some(p) => p != ids[k] && ids.contains(p),
        None => false,
    }
}

/// The ids among the first `n` occurrences that are roots, in order.
pub open spec fn roots_of(ids: Seq<NodeId>, parents: Seq<Option<NodeId>>, n: int) -> Seq<NodeId>
    decreases n,
{
    if n <= 0 {
        Seq::empty()
    } else if has_parent_link(ids, parents, n - 1) {
        roots_of(ids, parents, n - 1)
    } else {
        roots_of(ids, parents, n - 1).push(ids[n - 1])
    }
}

/// The ids among the first `n` occurrences that hang under `v`, in order.
pub open spec fn children_of(ids: Seq<NodeId>, parents: Seq<Option<NodeId>>, v: NodeId, n: int) -> Seq<NodeId>
    decreases n,
{
    if n <= 0 {
        Seq::empty()
    } else if has_parent_link(ids, parents, n - 1) && parents[n - 1] == Some(v) {
        children_of(ids, parents, v, n - 1).push(ids[n - 1])
    } else {
        children_of(ids, parents, v, n - 1)
    }
}

/// One parent per occurrence, and the same parent for every occurrence of
/// an id.
pub open spec fn consistent_parents(ids: Seq<NodeId>, parents: Seq<Option<NodeId>>) -> bool {
    &&& parents.len() == ids.len()
    &&& forall|i: int, j: int|
        0 <= i < ids.len() && 0 <= j < ids.len() && #[trigger] ids[i] == #[trigger] ids[j] ==> parents[i]
            == parents[j]
}

/// `nodes` are the trees for the ids `expected`, in order, at `depth`.
pub open spec fn forest_ok<N: Fn(NodeId) -> String>(
    nodes: Seq<HierarchyNode>,
    expected: Seq<NodeId>,
    depth: int,
    ids: Seq<NodeId>,
    parents: Seq<Option<NodeId>>,
    get_name: N,
) -> bool
    decreases nodes,
{
    &&& nodes.len() == expected.len()
    &&& (nodes.len() > 0 ==> {
        &&& forest_ok(nodes.drop_last(), expected.drop_last(), depth, ids, parents, get_name)
        &&& nodes.last().id == expected.last()
        &&& tree_ok(nodes.last(), depth, ids, parents, get_name)
    })
}

/// `node` is the tree built for its id at `depth`: named by `get_name`, with
/// the trees of its children (in the order they occur in `ids`) below it.
pub open spec fn tree_ok<N: Fn(NodeId) -> String>(
    node: HierarchyNode,
    depth: int,
    ids: Seq<NodeId>,
    parents: Seq<Option<NodeId>>,
    get_name: N,
) -> bool
    decreases node,
{
    &&& node.depth == depth
    &&& get_name.ensures((node.id,), node.name)
    &&& forest_ok(node.children@, children_of(ids, parents, node.id, ids.len() as int), depth + 1, ids, parents, get_name)
}

/// Appending the tree for the next expected id extends a matching forest.
proof fn lemma_forest_push<N: Fn(NodeId) -> String>(
    nodes: Seq<HierarchyNode>,
    expected: Seq<NodeId>,
    node: HierarchyNode,
    depth: int,
    ids: Seq<NodeId>,
    parents: Seq<Option<NodeId>>,
    get_name: N,
)
    requires
        forest_ok(nodes, expected.drop_last(), depth, ids, parents, get_name),
        expected.len() > 0,
        node.id == expected.last(),
        tree_ok(node, depth, ids, parents, get_name),
    ensures
        forest_ok(nodes.push(node), expected, depth, ids, parents, get_name),
{
    assert(nodes.push(node).drop_last() =~= nodes);
    assert(nodes.push(node).last() == node);
}

/// A path from a root down through parent links: `path[0]` is a root
/// occurrence, each later id hangs under the one before, no id repeats.
#[verifier::opaque]
pub open spec fn valid_path(ids: Seq<NodeId>, parents: Seq<Option<NodeId>>, path: Seq<NodeId>) -> bool {
    &&& path.len() >= 1
    &&& path.no_duplicates()
    &&& forall|i: int| 0 <= i < path.len() ==> ids.contains(#[trigger] path[i])
    &&& exists|k: int| 0 <= k < ids.len() && ids[k] == path[0] && !has_parent_link(ids, parents, k)
    &&& forall|i: int|
        1 <= i < path.len() ==> exists|k: int|
            0 <= k < ids.len() && ids[k] == #[trigger] path[i] && has_parent_link(ids, parents, k)
                && parents[k] == Some(path[i - 1])
}

/// Every child of `v` comes from an occurrence that hangs under `v`.
proof fn lemma_children_linked(ids: Seq<NodeId>, parents: Seq<Option<NodeId>>, v: NodeId, n: int)
    requires
        0 <= n <= ids.len(),
        parents.len() == ids.len(),
    ensures
        forall|j: int|
            0 <= j < children_of(ids, parents, v, n).len() ==> exists|k: int|
                0 <= k < n && ids[k] == #[trigger] children_of(ids, parents, v, n)[j]
                    && has_parent_link(ids, parents, k) && parents[k] == Some(v),
    decreases n,
{
    if n > 0 {
        lemma_children_linked(ids, parents, v, n - 1);
        let c0 = children_of(ids, parents, v, n - 1);
        let c = children_of(ids, parents, v, n);
        assert forall|j: int| 0 <= j < c.len() implies exists|k: int|
            0 <= k < n && ids[k] == #[trigger] c[j] && has_parent_link(ids, parents, k) && parents[k] == Some(v) by {
            if j < c0.len() {
                assert(c[j] == c0[j]);
                let k = choose|k: int| 0 <= k < n - 1 && ids[k] == #[trigger] c0[j]
                    && has_parent_link(ids, parents, k) && parents[k] == Some(v);
            } else {
                assert(c[j] == ids[n - 1]);
            }
        }
    }
}

/// Every root comes from an occurrence without a parent link.
proof fn lemma_roots_unlinked(ids: Seq<NodeId>, parents: Seq<Option<NodeId>>, n: int)
    requires
        0 <= n <= ids.len(),
        parents.len() == ids.len(),
    ensures
        forall|j: int|
            0 <= j < roots_of(ids, parents, n).len() ==> exists|k: int|
                0 <= k < n && ids[k] == #[trigger] roots_of(ids, parents, n)[j] && !has_parent_link(ids, parents, k),
    decreases n,
{
    if n > 0 {
        lemma_roots_unlinked(ids, parents, n - 1);
        let r0 = roots_of(ids, parents, n - 1);
        let r = roots_of(ids, parents, n);
        assert forall|j: int| 0 <= j < r.len() implies exists|k: int|
            0 <= k < n && ids[k] == #[trigger] r[j] && !has_parent_link(ids, parents, k) by {
            if j < r0.len() {
                assert(r[j] == r0[j]);
                let k = choose|k: int| 0 <= k < n - 1 && ids[k] == #[trigger] r0[j] && !has_parent_link(ids, parents, k);
            } else {
                assert(r[j] == ids[n - 1]);
            }
        }
    }
}

/// A path of distinct ids, all taken from `ids`, is no longer than `ids`.
proof fn lemma_path_len(ids: Seq<NodeId>, path: Seq<NodeId>)
    requires
        path.no_duplicates(),
        forall|i: int| 0 <= i < path.len() ==> ids.contains(#[trigger] path[i]),
    ensures
        path.len() <= ids.len(),
{
    broadcast use vstd::seq_lib::seq_to_set_is_finite;
    path.unique_seq_to_set();
    ids.lemma_cardinality_of_set();
    assert(path.to_set().subset_of(ids.to_set())) by {
        assert forall|x: NodeId| path.to_set().contains(x) implies ids.to_set().contains(x) by {
            let i = choose|i: int| 0 <= i < path.len() && path[i] == x;
            assert(ids.contains(path[i]));
        }
    }
    vstd::set_lib::lemma_len_subset(path.to_set(), ids.to_set());
}

/// A valid path is no longer than `ids`.
proof fn lemma_valid_path_len(ids: Seq<NodeId>, parents: Seq<Option<NodeId>>, path: Seq<NodeId>)
    requires
        valid_path(ids, parents, path),
    ensures
        path.len() <= ids.len(),
{
    reveal(valid_path);
    lemma_path_len(ids, path);
}

/// A root id alone is a valid path.
proof fn lemma_root_path(ids: Seq<NodeId>, parents: Seq<Option<NodeId>>, k: int)
    requires
        0 <= k < ids.len(),
        !has_parent_link(ids, parents, k),
    ensures
        valid_path(ids, parents, seq![ids[k]]),
{
    reveal(valid_path);
    let p = seq![ids[k]];
    assert(ids.contains(p[0])) by {
        assert(ids[k] == p[0]);
    }
}

/// Extending a path with a child of its last id gives a path.
proof fn lemma_extend_path(ids: Seq<NodeId>, parents: Seq<Option<NodeId>>, path: Seq<NodeId>, c: NodeId, kc: int)
    requires
        consistent_parents(ids, parents),
        valid_path(ids, parents, path),
        0 <= kc < ids.len(),
        ids[kc] == c,
        has_parent_link(ids, parents, kc),
        parents[kc] == Some(path.last()),
    ensures
        valid_path(ids, parents, path.push(c)),
{
    reveal(valid_path);
    let np = path.push(c);
    assert forall|i: int| 0 <= i < np.len() implies ids.contains(#[trigger] np[i]) by {
        if i == path.len() {
            assert(ids[kc] == c);
        } else {
            assert(np[i] == path[i]);
        }
    }
    assert forall|j: int| 0 <= j < path.len() implies path[j] != c by {
        if path[j] == c {
            if j == 0 {
                let k0 = choose|k: int| 0 <= k < ids.len() && ids[k] == path[0] && !has_parent_link(ids, parents, k);
                assert(ids[k0] == ids[kc]);
            } else {
                let k = choose|k: int|
                    0 <= k < ids.len() && ids[k] == #[trigger] path[j] && has_parent_link(ids, parents, k)
                        && parents[k] == Some(path[j - 1]);
                assert(ids[k] == ids[kc]);
                assert(path[j - 1] == path[path.len() - 1]);
            }
        }
    }
    assert(np.no_duplicates()) by {
        assert forall|a: int, b: int| 0 <= a < b < np.len() implies np[a] != np[b] by {
            if b == path.len() {
                assert(path[a] != c);
            } else {
                assert(np[a] == path[a]);
                assert(np[b] == path[b]);
            }
        }
    }
    assert(np[0] == path[0]);
    assert forall|i: int| 1 <= i < np.len() implies exists|k: int|
        0 <= k < ids.len() && ids[k] == #[trigger] np[i] && has_parent_link(ids, parents, k)
            && parents[k] == Some(np[i - 1]) by {
        if i == path.len() {
            assert(np[i] == c);
            assert(np[i - 1] == path.last());
        } else {
            assert(np[i] == path[i]);
            assert(np[i - 1] == path[i - 1]);
        }
    }
}

/// The map from each id to the ids hanging under it agrees with `children_of`.
pub open spec fn children_map_ok(
    map: Map<NodeId, Vec<NodeId>>,
    ids: Seq<NodeId>,
    parents: Seq<Option<NodeId>>,
    n: int,
) -> bool {
    forall|v: NodeId|
        #![trigger children_of(ids, parents, v, n)]
        if map.contains_key(v) {
            map[v]@ == children_of(ids, parents, v, n)
        } else {
            children_of(ids, parents, v, n) == Seq::<NodeId>::empty()
        }
}

/// Build the tree for `id` at `depth`, whose path from its root is `path`.
fn build_node<N: Fn(NodeId) -> String>(
    id: NodeId,
    depth: usize,
    children_map: &HashMap<NodeId, Vec<NodeId>>,
    get_name: &N,
    Ghost(ids): Ghost<Seq<NodeId>>,
    Ghost(parents): Ghost<Seq<Option<NodeId>>>,
    Ghost(path): Ghost<Seq<NodeId>>,
) -> (node: HierarchyNode)
    requires
        ids.len() <= usize::MAX,
        consistent_parents(ids, parents),
        children_map_ok(children_map@, ids, parents, ids.len() as int),
        forall|x: NodeId| get_name.requires((x,)),
        valid_path(ids, parents, path),
        path.last() == id,
        path.len() == depth + 1,
    ensures
        node.id == id,
        tree_ok(node, depth as int, ids, parents, *get_name),
    decreases ids.len() - depth,
{
    broadcast use vstd::std_specs::hash::group_hash_axioms;
    proof {
        lemma_valid_path_len(ids, parents, path);
    }
    let ghost kids = children_of(ids, parents, id, ids.len() as int);
    let mut children: Vec<HierarchyNode> = Vec::new();
    match children_map.get(&id) {
        Some(child_ids) => {
            assert(child_ids@ == kids);
            proof {
                lemma_children_linked(ids, parents, id, ids.len() as int);
            }
            let m = child_ids.len();
            let mut j: usize = 0;
            while j < m
                invariant
                    j <= m,
                    m == child_ids@.len(),
                    child_ids@ == kids,
                    kids == children_of(ids, parents, id, ids.len() as int),
                    ids.len() <= usize::MAX,
                    consistent_parents(ids, parents),
                    children_map_ok(children_map@, ids, parents, ids.len() as int),
                    forall|x: NodeId| get_name.requires((x,)),
                    valid_path(ids, parents, path),
                    path.last() == id,
                    path.len() == depth + 1,
                    path.len() <= ids.len(),
                    forall|jj: int|
                        0 <= jj < kids.len() ==> exists|k: int|
                            0 <= k < ids.len() && ids[k] == #[trigger] kids[jj] && has_parent_link(ids, parents, k)
                                && parents[k] == Some(id),
                    forest_ok(children@, kids.take(j as int), depth + 1, ids, parents, *get_name),
                decreases m - j,
            {
                let c = child_ids[j];
                let ghost kc = choose|k: int|
                    0 <= k < ids.len() && ids[k] == #[trigger] kids[j as int] && has_parent_link(ids, parents, k)
                        && parents[k] == Some(id);
                proof {
                    lemma_extend_path(ids, parents, path, c, kc);
                    lemma_valid_path_len(ids, parents, path.push(c));
                }
                let child = build_node(c, depth + 1, children_map, get_name, Ghost(ids), Ghost(parents), Ghost(path.push(c)));
                proof {
                    let t = kids.take(j + 1);
                    assert(t.drop_last() =~= kids.take(j as int));
                    assert(t.last() == c);
                    lemma_forest_push(children@, t, child, depth + 1, ids, parents, *get_name);
                }
                children.push(child);
                j = j + 1;
            }
            assert(kids.take(m as int) =~= kids);
        },
        None => {
            assert(kids =~= Seq::<NodeId>::empty());
            assert(kids.take(0) =~= kids);
        },
    }
    let name = get_name(id);
    HierarchyNode { id, name, children, depth }
}

/// Build a hierarchy tree from ids and the parent of each occurrence
/// (`parents[k]` for `ids[k]`).
///
/// An occurrence whose parent is `None`, itself, or an id not in `ids` is a
/// root. `get_name` names each node built. Ids on a parent cycle that no
/// root reaches are not built.
pub fn build_hierarchy_from_parents<N: Fn(NodeId) -> String>(
    ids: &[NodeId],
    parents: &[Option<NodeId>],
    get_name: N,
) -> (r: Vec<HierarchyNode>)
    requires
        consistent_parents(ids@, parents@),
        forall|x: NodeId| get_name.requires((x,)),
    ensures
        forest_ok(r@, roots_of(ids@, parents@, ids@.len() as int), 0, ids@, parents@, get_name),
{
    broadcast use vstd::std_specs::hash::group_hash_axioms;
    let ghost gids = ids@;
    let ghost gparents = parents@;
    let n = ids.len();
    let mut id_set: HashSet<NodeId> = HashSet::new();
    let mut i: usize = 0;
    while i < n
        invariant
            i <= n,
            n == gids.len(),
            gids == ids@,
            forall|x: NodeId| id_set@.contains(x) <==> exists|k: int| 0 <= k < i && #[trigger] gids[k] == x,
        decreases n - i,
    {
        id_set.insert(ids[i]);
        proof {
            assert forall|x: NodeId| id_set@.contains(x) <==> exists|k: int| 0 <= k < i + 1 && #[trigger] gids[k] == x by {
                if x == gids[i as int] {
                    assert(gids[i as int] == x);
                }
            }
        }
        i = i + 1;
    }
    assert forall|x: NodeId| id_set@.contains(x) <==> gids.contains(x) by {
        if gids.contains(x) {
            let k = choose|k: int| 0 <= k < gids.len() && gids[k] == x;
            assert(gids[k] == x);
        }
    }
    let mut children_map: HashMap<NodeId, Vec<NodeId>> = HashMap::new();
    let mut root_ids: Vec<NodeId> = Vec::new();
    let mut k: usize = 0;
    while k < n
        invariant
            k <= n,
            n == gids.len(),
            gids == ids@,
            gparents == parents@,
            consistent_parents(gids, gparents),
            forall|x: NodeId| id_set@.contains(x) <==> gids.contains(x),
            root_ids@ == roots_of(gids, gparents, k as int),
            children_map_ok(children_map@, gids, gparents, k as int),
        decreases n - k,
    {
        let id = ids[k];
        let linked = match parents[k] {
            Some(parent) => parent != id && id_set.contains(&parent),
            None => false,
        };
        assert(linked == has_parent_link(gids, gparents, k as int));
        if linked {
            let parent = parents[k].unwrap();
            let mut kids = match children_map.remove(&parent) {
                Some(v) => v,
                None => Vec::new(),
            };
            kids.push(id);
            children_map.insert(parent, kids);
        } else {
            root_ids.push(id);
        }
        proof {
            assert forall|v: NodeId|
                #![trigger children_of(gids, gparents, v, k + 1)]
                if children_map@.contains_key(v) {
                    children_map@[v]@ == children_of(gids, gparents, v, k + 1)
                } else {
                    children_of(gids, gparents, v, k + 1) == Seq::<NodeId>::empty()
                } by {
                assert(children_of(gids, gparents, v, k as int) == children_of(gids, gparents, v, k as int));
            }
        }
        k = k + 1;
    }
    let ghost roots = roots_of(gids, gparents, n as int);
    proof {
        lemma_roots_unlinked(gids, gparents, n as int);
    }
    let mut result: Vec<HierarchyNode> = Vec::new();
    let m = root_ids.len();
    let mut j: usize = 0;
    while j < m
        invariant
            j <= m,
            m == root_ids@.len(),
            root_ids@ == roots,
            roots == roots_of(gids, gparents, gids.len() as int),
            gids.len() <= usize::MAX,
            consistent_parents(gids, gparents),
            children_map_ok(children_map@, gids, gparents, gids.len() as int),
            forall|x: NodeId| get_name.requires((x,)),
            forall|jj: int|
                0 <= jj < roots.len() ==> exists|kk: int|
                    0 <= kk < gids.len() && gids[kk] == #[trigger] roots[jj] && !has_parent_link(gids, gparents, kk),
            forest_ok(result@, roots.take(j as int), 0, gids, gparents, get_name),
        decreases m - j,
    {
        let id = root_ids[j];
        let ghost path = seq![id];
        proof {
            let kk = choose|kk: int| 0 <= kk < gids.len() && gids[kk] == #[trigger] roots[j as int] && !has_parent_link(gids, gparents, kk);
            lemma_root_path(gids, gparents, kk);
        }
        let node = build_node(id, 0, &children_map, &get_name, Ghost(gids), Ghost(gparents), Ghost(path));
        proof {
            let t = roots.take(j + 1);
            assert(t.drop_last() =~= roots.take(j as int));
            assert(t.last() == id);
            lemma_forest_push(result@, t, node, 0, gids, gparents, get_name);
        }
        result.push(node);
        j = j + 1;
    }
    assert(roots.take(m as int) =~= roots);
    result
}

/// Build a hierarchy tree from a flat list of items.
///
/// `get_parent` gives `None` for root items or `Some(parent_id)`; it is
/// asked once per occurrence in `ids`, in order, and must answer the same
/// for the same id. `get_name` gives the display name of each node built.
/// Items whose parent is itself or not in `ids` are treated as roots.
pub fn build_hierarchy<F: Fn(NodeId) -> Option<NodeId>, N: Fn(NodeId) -> String>(
    ids: &[NodeId],
    get_parent: F,
    get_name: N,
) -> (r: Vec<HierarchyNode>)
    requires
        forall|x: NodeId| get_parent.requires((x,)),
        forall|x: NodeId| get_name.requires((x,)),
        forall|x: NodeId, p: Option<NodeId>, q: Option<NodeId>|
            get_parent.ensures((x,), p) && get_parent.ensures((x,), q) ==> p == q,
    ensures
        exists|parents: Seq<Option<NodeId>>|
            parents.len() == ids@.len() && (forall|k: int|
                0 <= k < ids@.len() ==> get_parent.ensures((ids@[k],), #[trigger] parents[k]))
                && forest_ok(r@, roots_of(ids@, parents, ids@.len() as int), 0, ids@, parents, get_name),
{
    let n = ids.len();
    let mut parents: Vec<Option<NodeId>> = Vec::new();
    let mut i: usize = 0;
    while i < n
        invariant
            i <= n,
            n == ids@.len(),
            parents@.len() == i,
            forall|x: NodeId| get_parent.requires((x,)),
            forall|k: int| 0 <= k < i ==> get_parent.ensures((ids@[k],), #[trigger] parents@[k]),
        decreases n - i,
    {
        let p = get_parent(ids[i]);
        parents.push(p);
        i = i + 1;
    }
    assert(consistent_parents(ids@, parents@)) by {
        assert forall|a: int, b: int|
            0 <= a < ids@.len() && 0 <= b < ids@.len() && #[trigger] ids@[a] == #[trigger] ids@[b] implies parents@[a]
                == parents@[b] by {
            assert(get_parent.ensures((ids@[a],), parents@[a]));
            assert(get_parent.ensures((ids@[b],), parents@[b]));
        }
    }
    build_hierarchy_from_parents(ids, parents.as_slice(), get_name)
}

/// Every occurrence without a parent link is among the roots, in place:
/// items with no parent, themselves as parent, or a parent not in the list
/// are roots.
pub proof fn lemma_unlinked_is_root(ids: Seq<NodeId>, parents: Seq<Option<NodeId>>, k: int, n: int)
    requires
        0 <= k < n <= ids.len(),
        parents.len() == ids.len(),
        !has_parent_link(ids, parents, k),
    ensures
        roots_of(ids, parents, n).contains(ids[k]),
    decreases n,
{
    if k < n - 1 {
        lemma_unlinked_is_root(ids, parents, k, n - 1);
        let r0 = roots_of(ids, parents, n - 1);
        let j = choose|j: int| 0 <= j < r0.len() && r0[j] == ids[k];
        if !has_parent_link(ids, parents, n - 1) {
            assert(r0.push(ids[n - 1])[j] == ids[k]);
        }
    } else {
        let r0 = roots_of(ids, parents, n - 1);
        assert(r0.push(ids[n - 1])[r0.len() as int] == ids[k]);
    }
}

/// An item whose parent is another listed item is among that parent's
/// children.
pub proof fn lemma_linked_is_child(ids: Seq<NodeId>, parents: Seq<Option<NodeId>>, k: int, v: NodeId, n: int)
    requires
        0 <= k < n <= ids.len(),
        parents.len() == ids.len(),
        has_parent_link(ids, parents, k),
        parents[k] == Some(v),
    ensures
        children_of(ids, parents, v, n).contains(ids[k]),
    decreases n,
{
    if k < n - 1 {
        lemma_linked_is_child(ids, parents, k, v, n - 1);
        let c0 = children_of(ids, parents, v, n - 1);
        let j = choose|j: int| 0 <= j < c0.len() && c0[j] == ids[k];
        if has_parent_link(ids, parents, n - 1) && parents[n - 1] == Some(v) {
            assert(c0.push(ids[n - 1])[j] == ids[k]);
        }
    } else {
        let c0 = children_of(ids, parents, v, n - 1);
        assert(c0.push(ids[n - 1])[c0.len() as int] == ids[k]);
    }
}

/// Every id in the listing of a built forest is an id of the input list:
/// building never invents nodes.
pub proof fn lemma_built_ids_from_input<N: Fn(NodeId) -> String>(
    nodes: Seq<HierarchyNode>,
    expected: Seq<NodeId>,
    depth: int,
    ids: Seq<NodeId>,
    parents: Seq<Option<NodeId>>,
    get_name: N,
)
    requires
        parents.len() == ids.len(),
        forest_ok(nodes, expected, depth, ids, parents, get_name),
        forall|j: int| 0 <= j < expected.len() ==> ids.contains(#[trigger] expected[j]),
    ensures
        forall|e: int| 0 <= e < flatten_forest(nodes).len() ==> ids.contains(#[trigger] flatten_forest(nodes)[e].1),
    decreases nodes,
{
    if nodes.len() > 0 {
        let init = nodes.drop_last();
        let last = nodes.last();
        assert forall|j: int| 0 <= j < expected.drop_last().len() implies ids.contains(#[trigger] expected.drop_last()[j]) by {
            assert(expected.drop_last()[j] == expected[j]);
        }
        lemma_built_ids_from_input(init, expected.drop_last(), depth, ids, parents, get_name);
        assert(ids.contains(last.id)) by {
            assert(expected[expected.len() - 1] == expected.last());
        }
        let kids = children_of(ids, parents, last.id, ids.len() as int);
        lemma_children_linked(ids, parents, last.id, ids.len() as int);
        assert forall|j: int| 0 <= j < kids.len() implies ids.contains(#[trigger] kids[j]) by {
            let k = choose|k: int| 0 <= k < ids.len() && ids[k] == #[trigger] kids[j]
                && has_parent_link(ids, parents, k) && parents[k] == Some(last.id);
            assert(ids[k] == kids[j]);
        }
        assert(tree_ok(last, depth, ids, parents, get_name));
        assert(forest_ok(last.children@, kids, depth + 1, ids, parents, get_name));
        assert(decreases_to!(nodes => last));
        lemma_built_ids_from_input(last.children@, kids, depth + 1, ids, parents, get_name);
        let f0 = flatten_forest(init);
        let ft = flatten_tree(last);
        assert(flatten_forest(nodes) == f0 + ft);
        assert forall|e: int| 0 <= e < flatten_forest(nodes).len() implies ids.contains(#[trigger] flatten_forest(nodes)[e].1) by {
            if e < f0.len() {
                assert(flatten_forest(nodes)[e] == f0[e]);
            } else if e == f0.len() {
                assert(flatten_forest(nodes)[e] == ft[0]);
            } else {
                assert(flatten_forest(nodes)[e] == flatten_forest(last.children@)[e - f0.len() - 1]);
            }
        }
    }
}

/// Listing two forests one after the other lists the first forest, then
/// the second.
pub proof fn lemma_flatten_concat(a: Seq<HierarchyNode>, b: Seq<HierarchyNode>)
    ensures
        flatten_forest(a + b) == flatten_forest(a) + flatten_forest(b),
    decreases b.len(),
{
    if b.len() == 0 {
        assert(a + b =~= a);
        assert(flatten_forest(b) =~= Seq::<(usize, NodeId, Seq<char>)>::empty());
        assert(flatten_forest(a) + flatten_forest(b) =~= flatten_forest(a));
    } else {
        lemma_flatten_concat(a, b.drop_last());
        assert((a + b).drop_last() =~= a + b.drop_last());
        assert((a + b).last() == b.last());
        assert(flatten_forest(a) + flatten_forest(b.drop_last()) + flatten_tree(b.last()) =~= flatten_forest(a)
            + (flatten_forest(b.drop_last()) + flatten_tree(b.last())));
    }
}

/// Flatten a hierarchy tree into a depth-first list for display.
pub fn flatten(nodes: &[HierarchyNode]) -> (r: Vec<FlatEntry>)
    ensures
        r@.map_values(|e: FlatEntry| flat_view(e)) == flatten_forest(nodes@),
{
    let mut result: Vec<FlatEntry> = Vec::new();
    let n = nodes.len();
    let mut i: usize = 0;
    while i < n
        invariant
            i <= n,
            n == nodes@.len(),
            result@.map_values(|e: FlatEntry| flat_view(e)) == flatten_forest(nodes@.take(i as int)),
        decreases n - i,
    {
        flatten_node(&nodes[i], &mut result);
        proof {
            let t = nodes@.take(i + 1);
            assert(t.drop_last() =~= nodes@.take(i as int));
            assert(t.last() == nodes@[i as int]);
        }
        i = i + 1;
    }
    assert(nodes@.take(n as int) =~= nodes@);
    result
}

/// Append the depth-first listing of `node` to `result`.
fn flatten_node(node: &HierarchyNode, result: &mut Vec<FlatEntry>)
    ensures
        final(result)@.map_values(|e: FlatEntry| flat_view(e)) == old(result)@.map_values(
            |e: FlatEntry| flat_view(e),
        ) + flatten_tree(*node),
    decreases node,
{
    let ghost start = result@.map_values(|e: FlatEntry| flat_view(e));
    result.push(FlatEntry { depth: node.depth, id: node.id, name: node.name.clone() });
    assert(result@.map_values(|e: FlatEntry| flat_view(e)) =~= start + seq![entry_of(*node)]);
    let n = node.children.len();
    let mut j: usize = 0;
    while j < n
        invariant
            j <= n,
            n == node.children@.len(),
            result@.map_values(|e: FlatEntry| flat_view(e)) == start + seq![entry_of(*node)]
                + flatten_forest(node.children@.take(j as int)),
        decreases n - j,
    {
        assert(decreases_to!(*node => node.children));
        flatten_node(&node.children[j], result);
        proof {
            let t = node.children@.take(j + 1);
            assert(t.drop_last() =~= node.children@.take(j as int));
            assert(t.last() == node.children@[j as int]);
            assert(flatten_forest(t) == flatten_forest(t.drop_last()) + flatten_tree(t.last()));
        }
        j = j + 1;
    }
    assert(node.children@.take(n as int) =~= node.children@);
    assert(result@.map_values(|e: FlatEntry| flat_view(e)) =~= start + flatten_tree(*node));
}

} // verus!

use vstd::prelude::*;

use crate::errors::ShowError;
use crate::path::{NormalizedPath, PathView};
use crate::walk::{
    hidden_name, DirEntry, DirEntryView, EntryType, FilterView, Metadata, Walk, WalkEvent,
    WalkEventView,
};

verus! {

/// One node of a modeled filesystem: a tree handed to the walk as plain
/// values, so that a whole traversal runs without touching any real
/// filesystem. `readable` models whether listing the node's children
/// succeeds; a symlink node's children stand for its target's listing.
pub struct TreeNode {
    pub name: String,
    pub typ: EntryType,
    pub symlink_to_dir: bool,
    pub metadata: Metadata,
    pub readable: bool,
    pub children: Vec<TreeNode>,
}

/// The height of a modeled node: one more than its tallest child.
pub open spec fn tree_height(node: TreeNode) -> nat
    decreases node,
{
    1 + forest_height(node.children@)
}

/// The height of the tallest node among `nodes`; zero when there is none.
pub open spec fn forest_height(nodes: Seq<TreeNode>) -> nat
    decreases nodes,
{
    if nodes.len() == 0 {
        0
    } else {
        let h0 = tree_height(nodes[0]);
        let hr = forest_height(nodes.drop_first());
        if h0 >= hr {
            h0
        } else {
            hr
        }
    }
}

/// No node of a forest is taller than the forest.
pub proof fn lemma_forest_height_ge(nodes: Seq<TreeNode>, i: int)
    requires
        0 <= i < nodes.len(),
    ensures
        forest_height(nodes) >= tree_height(nodes[i]),
    decreases nodes,
{
    if i > 0 {
        lemma_forest_height_ge(nodes.drop_first(), i - 1);
        assert(nodes.drop_first()[i - 1] == nodes[i]);
    }
}

/// The walk's own report of one modeled node: its entry when the filter
/// accepts it, else nothing.
pub open spec fn node_own_events(
    f: FilterView,
    path: PathView,
    depth: nat,
    via: bool,
    node: TreeNode,
) -> Seq<WalkEventView> {
    if f.accepts(node.name@, depth, node.metadata) {
        seq![
            WalkEventView::Entry(
                DirEntryView {
                    path,
                    typ: node.typ,
                    depth,
                    follow_link: via,
                    metadata: node.metadata,
                },
            ),
        ]
    } else {
        Seq::empty()
    }
}

/// The events the walk emits for one modeled node standing at `path` and
/// `depth`: its entry when the filter accepts it; then, when the walk
/// descends into it, one unreadable report when its listing fails, or its
/// children's events in order, one more level down.
pub open spec fn spec_node_events(
    f: FilterView,
    path: PathView,
    depth: nat,
    via: bool,
    node: TreeNode,
) -> Seq<WalkEventView>
    decreases node,
{
    let own: Seq<WalkEventView> = node_own_events(f, path, depth, via, node);
    if f.descends(node.typ, node.symlink_to_dir, depth) {
        if !node.readable {
            own + seq![WalkEventView::Unreadable(path)]
        } else {
            own + spec_forest_events(
                f,
                path,
                depth + 1,
                via || node.typ is Symlink,
                node.children@,
            )
        }
    } else {
        own
    }
}

/// The events the children `nodes` of the directory at `dir_path`
/// contribute, left to right, each standing one level below it.
pub open spec fn spec_forest_events(
    f: FilterView,
    dir_path: PathView,
    depth: nat,
    via: bool,
    nodes: Seq<TreeNode>,
) -> Seq<WalkEventView>
    decreases nodes,
{
    if nodes.len() == 0 {
        Seq::empty()
    } else {
        spec_node_events(f, dir_path.push_seg(nodes[0].name@), depth, via, nodes[0])
            + spec_forest_events(f, dir_path, depth, via, nodes.drop_first())
    }
}

/// A forest's events split at any point: the events of `s + t` are the
/// events of `s` followed by the events of `t`. Siblings contribute
/// independent blocks; none can suppress another's.
pub proof fn lemma_forest_events_concat(
    f: FilterView,
    dir_path: PathView,
    depth: nat,
    via: bool,
    s: Seq<TreeNode>,
    t: Seq<TreeNode>,
)
    ensures
        spec_forest_events(f, dir_path, depth, via, s + t) == spec_forest_events(
            f,
            dir_path,
            depth,
            via,
            s,
        ) + spec_forest_events(f, dir_path, depth, via, t),
    decreases s,
{
    if s.len() == 0 {
        assert(s + t =~= t);
        assert(spec_forest_events(f, dir_path, depth, via, s) =~= Seq::<WalkEventView>::empty());
        assert(spec_forest_events(f, dir_path, depth, via, s) + spec_forest_events(
            f,
            dir_path,
            depth,
            via,
            t,
        ) =~= spec_forest_events(f, dir_path, depth, via, t));
    } else {
        let u = s + t;
        assert(u.len() > 0);
        assert(u[0] == s[0]);
        assert(u.drop_first() =~= s.drop_first() + t);
        lemma_forest_events_concat(f, dir_path, depth, via, s.drop_first(), t);
        assert(spec_forest_events(f, dir_path, depth, via, u) == spec_node_events(
            f,
            dir_path.push_seg(s[0].name@),
            depth,
            via,
            s[0],
        ) + spec_forest_events(f, dir_path, depth, via, u.drop_first()));
        assert(spec_node_events(f, dir_path.push_seg(s[0].name@), depth, via, s[0])
            + (spec_forest_events(f, dir_path, depth, via, s.drop_first()) + spec_forest_events(
            f,
            dir_path,
            depth,
            via,
            t,
        )) =~= (spec_node_events(f, dir_path.push_seg(s[0].name@), depth, via, s[0])
            + spec_forest_events(f, dir_path, depth, via, s.drop_first())) + spec_forest_events(
            f,
            dir_path,
            depth,
            via,
            t,
        ));
    }
}

/// A forest walked one more node at the end: its events grow by that
/// node's block.
pub proof fn lemma_forest_events_push(
    f: FilterView,
    dir_path: PathView,
    depth: nat,
    via: bool,
    s: Seq<TreeNode>,
    x: TreeNode,
)
    ensures
        spec_forest_events(f, dir_path, depth, via, s.push(x)) == spec_forest_events(
            f,
            dir_path,
            depth,
            via,
            s,
        ) + spec_node_events(f, dir_path.push_seg(x.name@), depth, via, x),
{
    assert(s.push(x) =~= s + seq![x]);
    lemma_forest_events_concat(f, dir_path, depth, via, s, seq![x]);
    assert(seq![x].drop_first() =~= Seq::<TreeNode>::empty());
    assert(seq![x][0] == x);
    assert(spec_forest_events(f, dir_path, depth, via, Seq::<TreeNode>::empty())
        =~= Seq::<WalkEventView>::empty());
    assert(spec_forest_events(f, dir_path, depth, via, seq![x]) == spec_node_events(
        f,
        dir_path.push_seg(x.name@),
        depth,
        via,
        x,
    ) + spec_forest_events(f, dir_path, depth, via, seq![x].drop_first()));
    assert(spec_forest_events(f, dir_path, depth, via, seq![x]) =~= spec_node_events(
        f,
        dir_path.push_seg(x.name@),
        depth,
        via,
        x,
    ));
}

/// Walks one modeled node, appending its events to `out`.
fn walk_node(
    filter: &crate::walk::SearchFilter,
    path: &NormalizedPath,
    depth: usize,
    via: bool,
    node: &TreeNode,
    out: &mut Vec<WalkEvent>,
)
    requires
        depth + tree_height(*node) <= usize::MAX,
    ensures
        final(out)@.map_values(|e: WalkEvent| e@) == old(out)@.map_values(|e: WalkEvent| e@)
            + spec_node_events(filter@, path@, depth as nat, via, *node),
    decreases *node,
{
    let ghost base = out@.map_values(|e: WalkEvent| e@);
    let ghost f = filter@;
    let ghost spec_own: Seq<WalkEventView> = if f.accepts(node.name@, depth as nat, node.metadata) {
        seq![
            WalkEventView::Entry(
                DirEntryView {
                    path: path@,
                    typ: node.typ,
                    depth: depth as nat,
                    follow_link: via,
                    metadata: node.metadata,
                },
            ),
        ]
    } else {
        Seq::empty()
    };
    if filter.accepts_entry(node.name.as_str(), depth, &node.metadata) {
        out.push(
            WalkEvent::Entry(DirEntry::new(path.duplicate(), node.typ, depth, via, node.metadata)),
        );
    }
    let ghost own = out@.map_values(|e: WalkEvent| e@);
    proof {
        assert(own =~= base + spec_own);
    }
    if filter.descends_into(node.typ, node.symlink_to_dir, depth) {
        if !node.readable {
            out.push(WalkEvent::Unreadable(path.duplicate()));
            proof {
                assert(out@.map_values(|e: WalkEvent| e@) =~= base + spec_node_events(
                    f,
                    path@,
                    depth as nat,
                    via,
                    *node,
                ));
            }
        } else {
            let d2 = depth + 1;
            let via2 = via || matches!(node.typ, EntryType::Symlink);
            let n = node.children.len();
            let mut i: usize = 0;
            while i < n
                invariant
                    n == node.children.len(),
                    i <= n,
                    d2 == depth + 1,
                    via2 == (via || node.typ is Symlink),
                    f == filter@,
                    depth + tree_height(*node) <= usize::MAX,
                    out@.map_values(|e: WalkEvent| e@) == own + spec_forest_events(
                        f,
                        path@,
                        d2 as nat,
                        via2,
                        node.children@.take(i as int),
                    ),
                decreases n - i,
            {
                let child = &node.children[i];
                let mut cp = path.duplicate();
                cp.push_segment(child.name.clone());
                proof {
                    lemma_forest_height_ge(node.children@, i as int);
                    assert(tree_height(*node) == 1 + forest_height(node.children@));
                }
                walk_node(filter, &cp, d2, via2, child, out);
                proof {
                    lemma_forest_events_push(
                        f,
                        path@,
                        d2 as nat,
                        via2,
                        node.children@.take(i as int),
                        node.children@[i as int],
                    );
                    assert(node.children@.take(i + 1) =~= node.children@.take(i as int).push(
                        node.children@[i as int],
                    ));
                }
                i += 1;
            }
            proof {
                assert(node.children@.take(n as int) =~= node.children@);
                assert(out@.map_values(|e: WalkEvent| e@) =~= base + spec_node_events(
                    f,
                    path@,
                    depth as nat,
                    via,
                    *node,
                ));
            }
        }
    } else {
        proof {
            assert(out@.map_values(|e: WalkEvent| e@) =~= base + spec_node_events(
                f,
                path@,
                depth as nat,
                via,
                *node,
            ));
        }
    }
}

/// The path the modeled walk gives its root: the root's name alone.
pub open spec fn tree_root_path(node: TreeNode) -> PathView {
    PathView { prefix: None, segments: seq![node.name@] }
}

/// Walks a modeled tree on the calling thread, depth first, the root at
/// depth zero: the walk's filter decides what is emitted and where the walk
/// descends, an unreadable directory is reported once and skipped, and a
/// minimum depth above the maximum is refused before anything runs.
pub fn walk_tree(walk: &Walk, root: &TreeNode) -> (r: Result<Vec<WalkEvent>, ShowError>)
    requires
        tree_height(*root) <= usize::MAX,
    ensures
        walk.filter@.bounds_ok() <==> r is Ok,
        r matches Err(e) ==> e == ShowError::InvalidConfiguration,
        r matches Ok(evs) ==> evs@.map_values(|e: WalkEvent| e@) == spec_node_events(
            walk.filter@,
            tree_root_path(*root),
            0,
            false,
            *root,
        ),
{
    let ok = match (walk.filter.min_depth, walk.filter.max_depth) {
        (Some(a), Some(b)) => a <= b,
        _ => true,
    };
    if !ok {
        return Err(ShowError::InvalidConfiguration);
    }
    let mut out: Vec<WalkEvent> = Vec::new();
    let mut p = NormalizedPath::root(None);
    p.push_segment(root.name.clone());
    proof {
        assert(p@ =~= tree_root_path(*root));
        assert(out@.map_values(|e: WalkEvent| e@) =~= Seq::<WalkEventView>::empty());
    }
    walk_node(&walk.filter, &p, 0, false, root, &mut out);
    Ok(out)
}


/// Whether an event keeps an entry within the filter's depth bounds; a
/// failure report trivially does.
pub open spec fn event_depth_ok(f: FilterView, ev: WalkEventView) -> bool {
    ev matches WalkEventView::Entry(e) ==> f.depth_ok(e.depth)
}

/// Every entry a walk emits lies within the filter's depth bounds: with a
/// maximum depth of one, a tree of any depth yields only its root and the
/// root's direct children, never a grandchild.
pub proof fn lemma_node_events_depth_bounded(
    f: FilterView,
    path: PathView,
    depth: nat,
    via: bool,
    node: TreeNode,
)
    ensures
        forall|k: int|
            0 <= k < spec_node_events(f, path, depth, via, node).len() ==> event_depth_ok(
                f,
                #[trigger] spec_node_events(f, path, depth, via, node)[k],
            ),
    decreases node,
{
    let evs = spec_node_events(f, path, depth, via, node);
    let own = node_own_events(f, path, depth, via, node);
    if f.descends(node.typ, node.symlink_to_dir, depth) {
        if !node.readable {
            assert forall|k: int| 0 <= k < evs.len() implies event_depth_ok(
                f,
                #[trigger] evs[k],
            ) by {
                if k < own.len() {
                    assert(evs[k] == own[k]);
                } else {
                    assert(evs[k] == WalkEventView::Unreadable(path));
                }
            }
        } else {
            let rest = spec_forest_events(
                f,
                path,
                depth + 1,
                via || node.typ is Symlink,
                node.children@,
            );
            lemma_forest_events_depth_bounded(
                f,
                path,
                depth + 1,
                via || node.typ is Symlink,
                node.children@,
            );
            assert forall|k: int| 0 <= k < evs.len() implies event_depth_ok(
                f,
                #[trigger] evs[k],
            ) by {
                if k < own.len() {
                    assert(evs[k] == own[k]);
                } else {
                    assert(evs[k] == rest[k - own.len()]);
                }
            }
        }
    }
}

/// The forest form of the depth-bound law.
pub proof fn lemma_forest_events_depth_bounded(
    f: FilterView,
    dir_path: PathView,
    depth: nat,
    via: bool,
    nodes: Seq<TreeNode>,
)
    ensures
        forall|k: int|
            0 <= k < spec_forest_events(f, dir_path, depth, via, nodes).len() ==> event_depth_ok(
                f,
                #[trigger] spec_forest_events(f, dir_path, depth, via, nodes)[k],
            ),
    decreases nodes,
{
    if nodes.len() > 0 {
        let evs = spec_forest_events(f, dir_path, depth, via, nodes);
        let head = spec_node_events(f, dir_path.push_seg(nodes[0].name@), depth, via, nodes[0]);
        let rest = spec_forest_events(f, dir_path, depth, via, nodes.drop_first());
        lemma_node_events_depth_bounded(f, dir_path.push_seg(nodes[0].name@), depth, via, nodes[0]);
        lemma_forest_events_depth_bounded(f, dir_path, depth, via, nodes.drop_first());
        assert forall|k: int| 0 <= k < evs.len() implies event_depth_ok(f, #[trigger] evs[k]) by {
            if k < head.len() {
                assert(evs[k] == head[k]);
            } else {
                assert(evs[k] == rest[k - head.len()]);
            }
        }
    }
}

/// Whether an event carries no hidden-named entry: an emitted entry's path
/// ends in a name that does not bear the hidden marker.
pub open spec fn event_not_hidden(ev: WalkEventView) -> bool {
    ev matches WalkEventView::Entry(e) ==> (e.path.segments.len() > 0 && !hidden_name(
        e.path.segments.last(),
    ))
}

/// With `skip_hidden` set, no emitted entry's name begins with the hidden
/// marker, at any level of the walk. The events are characterized by the
/// tree and the filter alone, so the exclusion does not depend on the order
/// in which siblings are expanded.
pub proof fn lemma_skip_hidden_excludes(
    f: FilterView,
    path: PathView,
    depth: nat,
    via: bool,
    node: TreeNode,
)
    requires
        f.skip_hidden,
        path.segments.len() > 0,
        path.segments.last() == node.name@,
    ensures
        forall|k: int|
            0 <= k < spec_node_events(f, path, depth, via, node).len() ==> event_not_hidden(
                #[trigger] spec_node_events(f, path, depth, via, node)[k],
            ),
    decreases node,
{
    let evs = spec_node_events(f, path, depth, via, node);
    let own = node_own_events(f, path, depth, via, node);
    if f.descends(node.typ, node.symlink_to_dir, depth) {
        if !node.readable {
            assert forall|k: int| 0 <= k < evs.len() implies event_not_hidden(
                #[trigger] evs[k],
            ) by {
                if k < own.len() {
                    assert(evs[k] == own[k]);
                } else {
                    assert(evs[k] == WalkEventView::Unreadable(path));
                }
            }
        } else {
            let rest = spec_forest_events(
                f,
                path,
                depth + 1,
                via || node.typ is Symlink,
                node.children@,
            );
            lemma_skip_hidden_excludes_forest(
                f,
                path,
                depth + 1,
                via || node.typ is Symlink,
                node.children@,
            );
            assert forall|k: int| 0 <= k < evs.len() implies event_not_hidden(
                #[trigger] evs[k],
            ) by {
                if k < own.len() {
                    assert(evs[k] == own[k]);
                } else {
                    assert(evs[k] == rest[k - own.len()]);
                }
            }
        }
    }
}

/// The forest form of the hidden-exclusion law: every child entry's path
/// ends in that child's own name, which the filter checked.
pub proof fn lemma_skip_hidden_excludes_forest(
    f: FilterView,
    dir_path: PathView,
    depth: nat,
    via: bool,
    nodes: Seq<TreeNode>,
)
    requires
        f.skip_hidden,
    ensures
        forall|k: int|
            0 <= k < spec_forest_events(f, dir_path, depth, via, nodes).len() ==> event_not_hidden(
                #[trigger] spec_forest_events(f, dir_path, depth, via, nodes)[k],
            ),
    decreases nodes,
{
    if nodes.len() > 0 {
        let evs = spec_forest_events(f, dir_path, depth, via, nodes);
        let cp = dir_path.push_seg(nodes[0].name@);
        let head = spec_node_events(f, cp, depth, via, nodes[0]);
        let rest = spec_forest_events(f, dir_path, depth, via, nodes.drop_first());
        assert(cp.segments.last() == nodes[0].name@);
        lemma_skip_hidden_excludes(f, cp, depth, via, nodes[0]);
        lemma_skip_hidden_excludes_forest(f, dir_path, depth, via, nodes.drop_first());
        assert forall|k: int| 0 <= k < evs.len() implies event_not_hidden(#[trigger] evs[k]) by {
            if k < head.len() {
                assert(evs[k] == head[k]);
            } else {
                assert(evs[k] == rest[k - head.len()]);
            }
        }
    }
}

/// Sibling scheduling does not change what a walk emits: two groups of
/// siblings expanded in either order yield the same multiset of events.
/// This is the order guarantee a parallel walk gives: the same tree and
/// filter yield the same set of entries as a sequential walk, though the
/// order across workers may differ.
pub proof fn lemma_sibling_order_irrelevant(
    f: FilterView,
    dir_path: PathView,
    depth: nat,
    via: bool,
    s: Seq<TreeNode>,
    t: Seq<TreeNode>,
)
    ensures
        spec_forest_events(f, dir_path, depth, via, s + t).to_multiset() == spec_forest_events(
            f,
            dir_path,
            depth,
            via,
            t + s,
        ).to_multiset(),
{
    broadcast use vstd::multiset::group_multiset_axioms;

    let es = spec_forest_events(f, dir_path, depth, via, s);
    let et = spec_forest_events(f, dir_path, depth, via, t);
    lemma_forest_events_concat(f, dir_path, depth, via, s, t);
    lemma_forest_events_concat(f, dir_path, depth, via, t, s);
    vstd::seq_lib::lemma_multiset_commutative(es, et);
    vstd::seq_lib::lemma_multiset_commutative(et, es);
    assert(es.to_multiset().add(et.to_multiset()) =~= et.to_multiset().add(es.to_multiset()));
}

/// A directory whose listing fails is reported exactly once: its events
/// are its own entry, when the filter accepts it, followed by one
/// unreadable report and nothing else. Around it, sibling blocks stand
/// untouched (`lemma_forest_events_concat`), so one unreadable entry never
/// stops the walk.
pub proof fn lemma_unreadable_reported_once(
    f: FilterView,
    path: PathView,
    depth: nat,
    via: bool,
    node: TreeNode,
)
    requires
        f.descends(node.typ, node.symlink_to_dir, depth),
        !node.readable,
    ensures
        spec_node_events(f, path, depth, via, node) == node_own_events(f, path, depth, via, node)
            + seq![WalkEventView::Unreadable(path)],
{
}

} // verus!


//! What holds of every graph.

use vstd::prelude::*;
use crate::scene::scenenode::{changes_of, size_of, ChangeView, Edit, Node};
use crate::transform::{Factor, Quaternion, Vector3};

verus! {

/// A node to start a graph from and a node for an instance are well formed.
pub proof fn lemma_new_nodes_are_well_formed(model_id: usize, instance_id: usize)
    ensures
        Node::root().well_formed(),
        Node::instance(model_id, instance_id).well_formed(),
{
}

/// Marking and cleaning keep a graph well formed.
pub proof fn lemma_flags_keep_well_formed(node: Node)
    requires
        node.well_formed(),
    ensures
        node.mark_subtree().well_formed(),
        node.cleaned().well_formed(),
    decreases node,
{
    let marked = node.mark_subtree();
    let clean = node.cleaned();
    assert forall|i: int| 0 <= i < marked.children.len() implies (#[trigger] marked.children[i]).well_formed() by {
        lemma_flags_keep_well_formed(node.children[i]);
    }
    assert forall|i: int| 0 <= i < clean.children.len() implies (#[trigger] clean.children[i]).well_formed() by {
        lemma_flags_keep_well_formed(node.children[i]);
    }
}

/// An edit keeps a node well formed if the child that it brings is well
/// formed.
pub proof fn lemma_edit_keeps_well_formed(node: Node, edit: Edit)
    requires
        node.well_formed(),
        edit matches Edit::AddChild(child) ==> child@.well_formed(),
    ensures
        node.edited(edit).well_formed(),
{
    match edit {
        Edit::AddChild(child) => {},
        Edit::RemoveChild(id) => {
            if 0 <= id < node.children.len() {
                let after = node.without_child(id as int);
                assert forall|i: int| 0 <= i < after.children.len() implies (
                #[trigger] after.children[i]).well_formed() by {
                    if i < id {
                        assert(after.children[i] == node.children[i]);
                    } else {
                        assert(after.children[i] == node.children[i + 1]);
                    }
                }
            }
        },
        Edit::Rotation(rotation) => {
            lemma_flags_keep_well_formed(Node { rotation, ..node });
        },
        Edit::Position(position) => {
            lemma_flags_keep_well_formed(Node { position, ..node });
        },
        Edit::Scale(scale) => {
            lemma_flags_keep_well_formed(Node { scale, ..node });
        },
    }
}

/// Every node of a well-formed graph is well formed, and the graph stays
/// so when a well-formed node takes the place of one.
pub proof fn lemma_replace_keeps_well_formed(tree: Node, path: Seq<usize>, node: Node)
    requires
        tree.well_formed(),
        tree.has_path(path),
    ensures
        tree.at(path).well_formed(),
        node.well_formed() ==> tree.replace_at(path, node).well_formed(),
    decreases path.len(),
{
    if path.len() > 0 {
        lemma_replace_keeps_well_formed(tree.children[path[0] as int], path.drop_first(), node);
    }
}

/// Removal: a node that loses a child has one child less; the children
/// before the one that went stay where they were, those behind it move up
/// by one, each with everything below it. Nothing of the child that went
/// is left.
pub proof fn lemma_without_child(node: Node, id: int)
    requires
        0 <= id < node.children.len(),
    ensures
        node.without_child(id).children.len() == node.children.len() - 1,
        node.without_child(id).same_node(node),
        forall|i: int| 0 <= i < id ==> #[trigger] node.without_child(id).children[i] == node.children[i],
        forall|i: int|
            id <= i < node.children.len() - 1 ==> #[trigger] node.without_child(id).children[i]
                == node.children[i + 1],
        node.without_child(id).size() == node.size() - node.children[id].size(),
{
    let after = node.without_child(id);
    lemma_size_of_remove(node.children, id);
}

/// A row of nodes without one of them has as many nodes less as there are
/// in that one and below it.
pub proof fn lemma_size_of_remove(nodes: Seq<Node>, id: int)
    requires
        0 <= id < nodes.len(),
    ensures
        size_of(nodes.remove(id)) == size_of(nodes) - nodes[id].size(),
    decreases nodes.len(),
{
    if id == nodes.len() - 1 {
        assert(nodes.remove(id) =~= nodes.drop_last());
    } else {
        let rest = nodes.drop_last();
        assert(nodes.remove(id).drop_last() =~= rest.remove(id));
        assert(nodes.remove(id).last() == nodes.last());
        assert(rest[id] == nodes[id]);
        lemma_size_of_remove(rest, id);
    }
}

/// Marking a subtree keeps its shape and marks every node of it.
pub proof fn lemma_mark_subtree_at(node: Node, path: Seq<usize>)
    requires
        node.has_path(path),
    ensures
        node.mark_subtree().has_path(path),
        node.mark_subtree().at(path) == node.at(path).mark_subtree(),
        node.mark_subtree().at(path).changed,
    decreases path.len(),
{
    if path.len() > 0 {
        lemma_mark_subtree_at(node.children[path[0] as int], path.drop_first());
    }
}

/// Dirty propagation, inside: after a node has been turned, moved or
/// scaled, every node of its subtree, itself included, is marked as
/// changed.
pub proof fn lemma_local_change_marks_subtree(
    node: Node,
    rotation: Quaternion,
    position: Vector3,
    scale: u32,
    path: Seq<usize>,
)
    requires
        node.has_path(path),
    ensures
        node.rotated(rotation).has_path(path),
        node.rotated(rotation).at(path).changed,
        node.translated(position).has_path(path),
        node.translated(position).at(path).changed,
        node.scaled(scale).has_path(path),
        node.scaled(scale).at(path).changed,
{
    lemma_mark_subtree_at(Node { rotation, ..node }, path);
    lemma_mark_subtree_at(Node { position, ..node }, path);
    lemma_mark_subtree_at(Node { scale, ..node }, path);
}

/// Dirty propagation, outside: when the node that `path` leads to gives
/// way to another, as it does when it is turned, moved or scaled, every
/// node that `path` does not lead through to is where it was and as it was;
/// and where it is not above that node, so is everything below it.
pub proof fn lemma_replace_leaves_nodes_outside(
    tree: Node,
    path: Seq<usize>,
    node: Node,
    other: Seq<usize>,
)
    requires
        tree.has_path(path),
        tree.has_path(other),
        !path.is_prefix_of(other),
    ensures
        tree.replace_at(path, node).has_path(other),
        tree.replace_at(path, node).at(other).same_node(tree.at(other)),
        !other.is_prefix_of(path) ==> tree.replace_at(path, node).at(other) == tree.at(other),
    decreases other.len(),
{
    if other.len() == 0 {
        assert(path.len() > 0);
    } else {
        assert(path.len() > 0) by {
            if path.len() == 0 {
                assert(path.is_prefix_of(other));
            }
        }
        let i = other[0] as int;
        if path[0] == other[0] {
            assert(!path.drop_first().is_prefix_of(other.drop_first())) by {
                if path.drop_first().is_prefix_of(other.drop_first()) {
                    assert(path =~= other.subrange(0, path.len() as int)) by {
                        assert forall|k: int| 0 <= k < path.len() implies path[k] == other[k] by {
                            if k > 0 {
                                assert(path.drop_first()[k - 1] == other.drop_first()[k - 1]);
                            }
                        }
                    }
                    assert(path.is_prefix_of(other));
                }
            }
            lemma_replace_leaves_nodes_outside(
                tree.children[i],
                path.drop_first(),
                node,
                other.drop_first(),
            );
            if !other.is_prefix_of(path) {
                assert(!other.drop_first().is_prefix_of(path.drop_first())) by {
                    if other.drop_first().is_prefix_of(path.drop_first()) {
                        assert(other =~= path.subrange(0, other.len() as int)) by {
                            assert forall|k: int| 0 <= k < other.len() implies other[k]
                                == path[k] by {
                                if k > 0 {
                                    assert(other.drop_first()[k - 1] == path.drop_first()[k - 1]);
                                }
                            }
                        }
                        assert(other.is_prefix_of(path));
                    }
                }
            }
        } else {
            assert(!other.is_prefix_of(path)) by {
                if other.is_prefix_of(path) {
                    assert(other[0] == path[0]);
                }
            }
        }
    }
}

/// Cleaning keeps the shape of a subtree and leaves no node of it marked.
pub proof fn lemma_cleaned_at(node: Node, path: Seq<usize>)
    requires
        node.has_path(path),
    ensures
        node.cleaned().has_path(path),
        node.cleaned().at(path) == node.at(path).cleaned(),
        !node.cleaned().at(path).changed,
    decreases path.len(),
{
    if path.len() > 0 {
        lemma_cleaned_at(node.children[path[0] as int], path.drop_first());
    }
}

/// A traversal of nodes reports nothing where that of each reports nothing.
pub proof fn lemma_nothing_to_report(nodes: Seq<Node>, world: Seq<Factor>)
    requires
        forall|i: int|
            0 <= i < nodes.len() ==> (#[trigger] nodes[i]).changes(world) == Seq::<
                ChangeView,
            >::empty(),
    ensures
        changes_of(nodes, world) == Seq::<ChangeView>::empty(),
    decreases nodes.len(),
{
    if nodes.len() > 0 {
        assert forall|i: int| 0 <= i < nodes.drop_last().len() implies (
        #[trigger] nodes.drop_last()[i]).changes(world) == Seq::<ChangeView>::empty() by {
            assert(nodes.drop_last()[i] == nodes[i]);
        }
        lemma_nothing_to_report(nodes.drop_last(), world);
        assert(nodes.last() == nodes[nodes.len() - 1]);
    }
}

/// After a traversal a second one reports nothing: what `collect_changed`
/// leaves behind has no change to report, and is left as it is.
pub proof fn lemma_cleaned_reports_nothing(node: Node, parent: Seq<Factor>)
    ensures
        node.cleaned().cleaned() == node.cleaned(),
        node.cleaned().changes(parent) == Seq::<ChangeView>::empty(),
    decreases node,
{
    let clean = node.cleaned();
    let world = parent + clean.local();
    assert forall|i: int| 0 <= i < clean.children.len() implies (#[trigger] clean.children[i]).cleaned()
        == clean.children[i] && clean.children[i].changes(world) == Seq::<ChangeView>::empty() by {
        lemma_cleaned_reports_nothing(node.children[i], world);
    }
    assert(clean.cleaned().children =~= clean.children);
    lemma_nothing_to_report(clean.children, world);
}

/// A traversal of nodes reports as many changes as there are nodes where
/// that of each does.
pub proof fn lemma_all_reported(nodes: Seq<Node>, world: Seq<Factor>)
    requires
        forall|i: int|
            0 <= i < nodes.len() ==> (#[trigger] nodes[i]).changes(world).len() == nodes[i].size(),
    ensures
        changes_of(nodes, world).len() == size_of(nodes),
    decreases nodes.len(),
{
    if nodes.len() > 0 {
        assert forall|i: int| 0 <= i < nodes.drop_last().len() implies (
        #[trigger] nodes.drop_last()[i]).changes(world).len() == nodes.drop_last()[i].size() by {
            assert(nodes.drop_last()[i] == nodes[i]);
        }
        lemma_all_reported(nodes.drop_last(), world);
        assert(nodes.last() == nodes[nodes.len() - 1]);
    }
}

/// Two rows of nodes have the same number of nodes where they go pair by
/// pair.
pub proof fn lemma_same_size_of(nodes: Seq<Node>, others: Seq<Node>)
    requires
        others.len() == nodes.len(),
        forall|i: int| 0 <= i < nodes.len() ==> (#[trigger] others[i]).size() == nodes[i].size(),
    ensures
        size_of(others) == size_of(nodes),
    decreases nodes.len(),
{
    if nodes.len() > 0 {
        assert forall|i: int| 0 <= i < nodes.drop_last().len() implies (
        #[trigger] others.drop_last()[i]).size() == nodes.drop_last()[i].size() by {
            assert(others.drop_last()[i] == others[i]);
            assert(nodes.drop_last()[i] == nodes[i]);
        }
        lemma_same_size_of(nodes.drop_last(), others.drop_last());
        assert(others.last() == others[others.len() - 1]);
        assert(nodes.last() == nodes[nodes.len() - 1]);
    }
}

/// Until the next traversal: the traversal after a subtree has been marked
/// reports each of its nodes, none left out and none twice; and marking
/// what is marked changes nothing.
pub proof fn lemma_marked_subtree_is_reported_whole(node: Node, parent: Seq<Factor>)
    ensures
        node.mark_subtree().mark_subtree() == node.mark_subtree(),
        node.mark_subtree().size() == node.size(),
        node.mark_subtree().changes(parent).len() == node.size(),
    decreases node,
{
    let marked = node.mark_subtree();
    let world = parent + marked.local();
    assert forall|i: int| 0 <= i < marked.children.len() implies {
        &&& (#[trigger] marked.children[i]).mark_subtree() == marked.children[i]
        &&& marked.children[i].size() == node.children[i].size()
        &&& marked.children[i].changes(world).len() == marked.children[i].size()
    } by {
        lemma_marked_subtree_is_reported_whole(node.children[i], world);
    }
    assert(marked.mark_subtree().children =~= marked.children);
    lemma_all_reported(marked.children, world);
    lemma_same_size_of(node.children, marked.children);
}

/// What a traversal of one of several nodes reports is among what the
/// traversal of them all reports.
pub proof fn lemma_changes_of_has_each(nodes: Seq<Node>, world: Seq<Factor>, i: int, change: ChangeView)
    requires
        0 <= i < nodes.len(),
        nodes[i].changes(world).contains(change),
    ensures
        changes_of(nodes, world).contains(change),
    decreases nodes.len(),
{
    let before = changes_of(nodes.drop_last(), world);
    let last = nodes.last().changes(world);
    if i == nodes.len() - 1 {
        let k = choose|k: int| 0 <= k < last.len() && last[k] == change;
        assert((before + last)[before.len() + k] == change);
    } else {
        assert(nodes.drop_last()[i] == nodes[i]);
        lemma_changes_of_has_each(nodes.drop_last(), world, i, change);
        let k = choose|k: int| 0 <= k < before.len() && before[k] == change;
        assert((before + last)[k] == change);
    }
}

/// World transform composition: a traversal reports every changed node,
/// with its model and its instance, and with the product of the parent's
/// world transform and the local transforms on the way down to it, each
/// rotation first, then translation, then scale.
pub proof fn lemma_changed_node_is_reported(node: Node, parent: Seq<Factor>, path: Seq<usize>)
    requires
        node.has_path(path),
        node.at(path).changed,
    ensures
        node.changes(parent).contains(
            (node.at(path).model_id, node.at(path).instance_id, node.world_at(parent, path)),
        ),
    decreases path.len(),
{
    let world = parent + node.local();
    let below = changes_of(node.children, world);
    let own = if node.changed {
        seq![(node.model_id, node.instance_id, world)]
    } else {
        Seq::<ChangeView>::empty()
    };
    if path.len() == 0 {
        assert((own + below)[0] == (node.model_id, node.instance_id, world));
    } else {
        let i = path[0] as int;
        let change = (
            node.at(path).model_id,
            node.at(path).instance_id,
            node.world_at(parent, path),
        );
        lemma_changed_node_is_reported(node.children[i], world, path.drop_first());
        lemma_changes_of_has_each(node.children, world, i, change);
        let k = choose|k: int| 0 <= k < below.len() && below[k] == change;
        assert((own + below)[own.len() + k] == change);
    }
}

/// The node put in place of another is found where that one was.
pub proof fn lemma_replace_then_at(tree: Node, path: Seq<usize>, node: Node)
    requires
        tree.has_path(path),
    ensures
        tree.replace_at(path, node).has_path(path),
        tree.replace_at(path, node).at(path) == node,
    decreases path.len(),
{
    if path.len() > 0 {
        lemma_replace_then_at(tree.children[path[0] as int], path.drop_first(), node);
    }
}

/// A tree keeps a path when the node that takes the place of another has
/// what is left of the path where the path leads through that place.
pub proof fn lemma_replace_keeps_paths(tree: Node, path: Seq<usize>, node: Node, other: Seq<usize>)
    requires
        tree.has_path(path),
        tree.has_path(other),
        path.is_prefix_of(other) ==> node.has_path(other.subrange(path.len() as int, other.len() as int)),
    ensures
        tree.replace_at(path, node).has_path(other),
    decreases path.len(),
{
    if path.len() == 0 {
        assert(path.is_prefix_of(other));
        assert(other.subrange(0, other.len() as int) =~= other);
    } else if other.len() > 0 {
        let i = path[0] as int;
        if other[0] == path[0] {
            let rest = path.drop_first();
            let tail = other.drop_first();
            if rest.is_prefix_of(tail) {
                assert(path =~= other.subrange(0, path.len() as int)) by {
                    assert forall|k: int| 0 <= k < path.len() implies path[k] == other[k] by {
                        if k > 0 {
                            assert(rest[k - 1] == tail[k - 1]);
                        }
                    }
                }
                assert(path.is_prefix_of(other));
                assert(tail.subrange(rest.len() as int, tail.len() as int) =~= other.subrange(
                    path.len() as int,
                    other.len() as int,
                ));
            }
            lemma_replace_keeps_paths(tree.children[i], rest, node, tail);
        }
    }
}

/// Marking and cleaning leave every node its model.
pub proof fn lemma_flags_keep_models(node: Node, n: nat)
    requires
        node.models_below(n),
    ensures
        node.mark_subtree().models_below(n),
        node.cleaned().models_below(n),
    decreases node,
{
    let marked = node.mark_subtree();
    let clean = node.cleaned();
    assert forall|i: int| 0 <= i < marked.children.len() implies (#[trigger] marked.children[i]).models_below(
        n,
    ) by {
        lemma_flags_keep_models(node.children[i], n);
    }
    assert forall|i: int| 0 <= i < clean.children.len() implies (#[trigger] clean.children[i]).models_below(
        n,
    ) by {
        lemma_flags_keep_models(node.children[i], n);
    }
}

/// An edit keeps the models of a node among the first `n` if the child that
/// it brings has its models among them.
pub proof fn lemma_edit_keeps_models(node: Node, edit: Edit, n: nat)
    requires
        node.models_below(n),
        edit matches Edit::AddChild(child) ==> child@.models_below(n),
    ensures
        node.edited(edit).models_below(n),
{
    match edit {
        Edit::AddChild(child) => {},
        Edit::RemoveChild(id) => {
            if 0 <= id < node.children.len() {
                let after = node.without_child(id as int);
                assert forall|i: int| 0 <= i < after.children.len() implies (
                #[trigger] after.children[i]).models_below(n) by {
                    if i < id {
                        assert(after.children[i] == node.children[i]);
                    } else {
                        assert(after.children[i] == node.children[i + 1]);
                    }
                }
            }
        },
        Edit::Rotation(rotation) => {
            lemma_flags_keep_models(Node { rotation, ..node }, n);
        },
        Edit::Position(position) => {
            lemma_flags_keep_models(Node { position, ..node }, n);
        },
        Edit::Scale(scale) => {
            lemma_flags_keep_models(Node { scale, ..node }, n);
        },
    }
}

/// A node of a graph whose models are among the first `n` has its models
/// among them, and the graph still has once such a node takes the place of
/// another.
pub proof fn lemma_replace_keeps_models(tree: Node, path: Seq<usize>, node: Node, n: nat)
    requires
        tree.models_below(n),
        tree.has_path(path),
    ensures
        tree.at(path).models_below(n),
        node.models_below(n) ==> tree.replace_at(path, node).models_below(n),
    decreases path.len(),
{
    if path.len() > 0 {
        let i = path[0] as int;
        lemma_replace_keeps_models(tree.children[i], path.drop_first(), node, n);
    }
}

} // verus!
